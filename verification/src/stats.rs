//! Sums over the ledger of committed time: the entries of a range, and the
//! time by hour of the day and by project.

use vstd::prelude::*;
use crate::calendar::{
    date_of_day, date_string, date_text, day_number, is_date, lemma_day_number_is_injective,
    local_day, local_day_number, CivilDate,
};
use crate::engine::{find_project, project_has_id, project_index, Engine};
use crate::model::{Project, ProjectView, TimeEntry};
use crate::seq_util::{
    first_match, lemma_filter_members, lemma_filter_prefix, lemma_filter_take_step,
    lemma_first_match_found, lemma_first_match_is_first, lemma_first_match_none,
};
use crate::store::{entries_ordered, Store, StoreView};
use crate::tracking::capped;

verus! {

/// The committed time of one hour of the day.
#[derive(Clone, Copy, Debug, PartialEq, Eq, Structural)]
pub struct HourlyActivity {
    pub hour: u32,
    pub total_seconds: u64,
}

/// The committed time of one project, with the name of the project.
#[derive(Debug, PartialEq, Eq)]
pub struct ProjectTimeStats {
    pub project_id: u64,
    pub project_name: String,
    pub total_seconds: u64,
}

impl Clone for ProjectTimeStats {
    fn clone(&self) -> (r: Self)
        ensures
            r == *self,
    {
        ProjectTimeStats {
            project_id: self.project_id,
            project_name: self.project_name.clone(),
            total_seconds: self.total_seconds,
        }
    }
}

/// The committed time of one calendar day, with the date as text.
#[derive(Debug, PartialEq, Eq)]
pub struct DailyActivity {
    pub date: String,
    pub total_seconds: u64,
}

impl Clone for DailyActivity {
    fn clone(&self) -> (r: Self)
        ensures
            r == *self,
    {
        DailyActivity { date: self.date.clone(), total_seconds: self.total_seconds }
    }
}

/// The committed time of one local day, counted from the first day of 1970.
#[derive(Clone, Copy, Debug, PartialEq, Eq, Structural)]
pub struct DayTotal {
    pub day: i64,
    pub total_seconds: u64,
}

/// What a sum is taken over: the entries of an hour of the day, or of a
/// project.
#[derive(Clone, Copy, Debug, PartialEq, Eq, Structural)]
pub enum Bucket {
    Hour(u32),
    Project(u64),
}

/// How far the local clocks stand ahead of universal time at one second of
/// the epoch.
#[derive(Clone, Copy, Debug, PartialEq, Eq, Structural)]
pub struct OffsetAt {
    pub at: u64,
    pub utc_offset_seconds: i32,
}

/// Holds of the offsets that are given for the second `t`.
pub open spec fn offset_is_at(t: u64) -> spec_fn(OffsetAt) -> bool {
    |o: OffsetAt| o.at == t
}

/// The offset of the local clocks at the second `t`: the first that the
/// table gives for `t`, and none, which is universal time, where it gives
/// none.
pub open spec fn offset_at(zone: Seq<OffsetAt>, t: u64) -> i32 {
    match first_match(zone, offset_is_at(t)) {
        Some(i) => zone[i].utc_offset_seconds,
        None => 0,
    }
}

/// The local day, counted from the first day of 1970, on which the second
/// `t` falls under the offset that the table gives for it.
pub open spec fn zoned_day(zone: Seq<OffsetAt>, t: u64) -> int {
    local_day(t, offset_at(zone, t))
}

/// The committed time of one project.
#[derive(Clone, Copy, Debug, PartialEq, Eq, Structural)]
pub struct ProjectTotal {
    pub project_id: u64,
    pub total_seconds: u64,
}

/// A total comes before another in a ranking: it is larger, or the same
/// under a smaller project id.
pub open spec fn total_before(a: ProjectTotal, b: ProjectTotal) -> bool {
    a.total_seconds > b.total_seconds || (a.total_seconds == b.total_seconds && a.project_id
        < b.project_id)
}

/// Every total of the list comes before the ones behind it.
pub open spec fn ranking_ordered(ts: Seq<ProjectTotal>) -> bool {
    forall|i: int, j: int| 0 <= i < j < ts.len() ==> total_before(ts[i], ts[j])
}

/// The totals of the statistics of a list.
pub open spec fn totals_of(stats: Seq<ProjectTimeStats>) -> Seq<ProjectTotal> {
    Seq::new(
        stats.len(),
        |i: int|
            ProjectTotal {
                project_id: stats[i].project_id,
                total_seconds: stats[i].total_seconds,
            },
    )
}

/// The name under which a project appears in the statistics: that of the
/// first project in rotation with this id, or `Unknown` where there is none.
pub open spec fn shown_name(ps: Seq<ProjectView>, project_id: u64) -> Seq<char> {
    match project_index(ps, project_id) {
        Some(i) => ps[i].name@,
        None => "Unknown"@,
    }
}

/// Holds of the entries that start inside `start_time ..= end_time`.
pub open spec fn in_range(start_time: u64, end_time: u64) -> spec_fn(TimeEntry) -> bool {
    |e: TimeEntry| start_time <= e.start_time <= end_time
}

/// The hour of the day, from 0 to 23, in which a second of the epoch lies.
pub open spec fn hour_of(t: u64) -> int {
    ((t % 86400) / 3600) as int
}

/// Holds of the entries that start inside the range and in this hour of the
/// day.
pub open spec fn in_range_and_hour(start_time: u64, end_time: u64, hour: int) -> spec_fn(
    TimeEntry,
) -> bool {
    |e: TimeEntry| start_time <= e.start_time <= end_time && hour_of(e.start_time) == hour
}

/// Holds of the entries of one project that start inside the range.
pub open spec fn in_range_and_project(start_time: u64, end_time: u64, project_id: u64) -> spec_fn(
    TimeEntry,
) -> bool {
    |e: TimeEntry| start_time <= e.start_time <= end_time && e.project_id == project_id
}

/// Holds of the entries that start inside the range and on this local day.
pub open spec fn in_range_and_day(start_time: u64, end_time: u64, zone: Seq<OffsetAt>, day: int) -> spec_fn(
    TimeEntry,
) -> bool {
    |e: TimeEntry|
        start_time <= e.start_time <= end_time && zoned_day(zone, e.start_time) == day
}

/// Holds of the entries of a bucket that start inside the range.
pub open spec fn in_bucket(start_time: u64, end_time: u64, bucket: Bucket) -> spec_fn(TimeEntry) -> bool {
    match bucket {
        Bucket::Hour(h) => in_range_and_hour(start_time, end_time, h as int),
        Bucket::Project(p) => in_range_and_project(start_time, end_time, p),
    }
}

/// The days of the list rise from the front.
pub open spec fn days_ordered(ts: Seq<DayTotal>) -> bool {
    forall|i: int, j: int| 0 <= i < j < ts.len() ==> ts[i].day < ts[j].day
}

/// The text is the date of the day.
pub open spec fn is_text_of_day(text: Seq<char>, day: int) -> bool {
    exists|d: CivilDate| is_date(d) && day_number(d) == day && text == #[trigger] date_text(d)
}

/// A day has one text.
pub proof fn lemma_text_of_day_is_unique(a: Seq<char>, b: Seq<char>, day: int)
    requires
        is_text_of_day(a, day),
        is_text_of_day(b, day),
    ensures
        a == b,
{
    let x = choose|d: CivilDate| is_date(d) && day_number(d) == day && a == #[trigger] date_text(d);
    let y = choose|d: CivilDate| is_date(d) && day_number(d) == day && b == #[trigger] date_text(d);
    lemma_day_number_is_injective(x, y);
}

/// The daily activities are the day totals with each day as text.
pub open spec fn daily_matches(r: Seq<DailyActivity>, ts: Seq<DayTotal>) -> bool {
    &&& r.len() == ts.len()
    &&& forall|i: int|
        0 <= i < r.len() ==> (#[trigger] r[i]).total_seconds == ts[i].total_seconds
            && is_text_of_day(r[i].date@, ts[i].day as int)
}

/// The seconds of a list of entries, all together.
pub open spec fn duration_sum(es: Seq<TimeEntry>) -> int
    decreases es.len(),
{
    if es.len() == 0 {
        0
    } else {
        duration_sum(es.drop_last()) + es.last().duration_seconds
    }
}

/// An entry comes before another in a listing: it starts earlier, or at the
/// same second under a smaller id.
pub open spec fn entry_before(a: TimeEntry, b: TimeEntry) -> bool {
    a.start_time < b.start_time || (a.start_time == b.start_time && a.id < b.id)
}

/// Holds of the entries that come before `e` in a listing.
pub open spec fn comes_before(e: TimeEntry) -> spec_fn(TimeEntry) -> bool {
    |a: TimeEntry| entry_before(a, e)
}

/// Every entry of the list comes before the ones behind it.
pub open spec fn listing_ordered(es: Seq<TimeEntry>) -> bool {
    forall|i: int, j: int| 0 <= i < j < es.len() ==> entry_before(es[i], es[j])
}

/// The entries in the order of a listing: by start, and by id among those
/// that start at the same second.
pub open spec fn listing(es: Seq<TimeEntry>) -> Seq<TimeEntry>
    decreases es.len(),
{
    if es.len() == 0 {
        es
    } else {
        let before = listing(es.drop_last());
        before.insert(before.filter(comes_before(es.last())).len() as int, es.last())
    }
}

/// The hours of the day below `hours` in which an entry of the range starts,
/// in increasing order, each with the seconds of its entries.
pub open spec fn hourly(es: Seq<TimeEntry>, start_time: u64, end_time: u64, hours: nat) -> Seq<
    HourlyActivity,
>
    decreases hours,
{
    if hours == 0 {
        Seq::empty()
    } else {
        let h = (hours - 1) as nat;
        let before = hourly(es, start_time, end_time, h);
        let bucket = es.filter(in_range_and_hour(start_time, end_time, h as int));
        if bucket.len() == 0 {
            before
        } else {
            before.push(
                HourlyActivity { hour: h as u32, total_seconds: capped(duration_sum(bucket)) },
            )
        }
    }
}

impl StoreView {
    /// The entries that start inside the range, in the order of a listing.
    pub open spec fn time_entries(self, start_time: u64, end_time: u64) -> Seq<TimeEntry> {
        listing(self.entries.filter(in_range(start_time, end_time)))
    }

    /// Every entry, in the order of a listing.
    pub open spec fn all_time_entries(self) -> Seq<TimeEntry> {
        listing(self.entries)
    }

    /// The committed time of the range by hour of the day: the days of the
    /// range fold into one, and an hour without entries is left out.
    pub open spec fn hourly_activity(self, start_time: u64, end_time: u64) -> Seq<HourlyActivity> {
        hourly(self.entries, start_time, end_time, 24)
    }

    /// The seconds that the entries of one project inside the range hold.
    pub open spec fn project_total(self, start_time: u64, end_time: u64, project_id: u64) -> u64 {
        capped(duration_sum(self.entries.filter(in_range_and_project(start_time, end_time, project_id))))
    }

    /// An entry of this project starts inside the range.
    pub open spec fn project_used(self, start_time: u64, end_time: u64, project_id: u64) -> bool {
        self.entries.filter(in_range_and_project(start_time, end_time, project_id)).len() > 0
    }

    /// The seconds that the entries of one local day inside the range hold.
    pub open spec fn day_total(self, start_time: u64, end_time: u64, zone: Seq<OffsetAt>, day: int) -> u64 {
        capped(
            duration_sum(
                self.entries.filter(in_range_and_day(start_time, end_time, zone, day)),
            ),
        )
    }

    /// An entry of the range starts on this local day.
    pub open spec fn day_used(self, start_time: u64, end_time: u64, zone: Seq<OffsetAt>, day: int) -> bool {
        self.entries.filter(in_range_and_day(start_time, end_time, zone, day)).len()
            > 0
    }

    /// `ts` is the committed time of the range by local day: every day on
    /// which an entry of the range starts stands in it once, with the seconds
    /// of its entries, and the days rise from the front.
    pub open spec fn is_daily_summary(
        self,
        start_time: u64,
        end_time: u64,
        zone: Seq<OffsetAt>,
        ts: Seq<DayTotal>,
    ) -> bool {
        &&& days_ordered(ts)
        &&& forall|i: int|
            0 <= i < ts.len() ==> self.day_used(
                start_time,
                end_time,
                zone,
                (#[trigger] ts[i]).day as int,
            ) && ts[i].total_seconds == self.day_total(
                start_time,
                end_time,
                zone,
                ts[i].day as int,
            )
        &&& forall|day: int| #[trigger]
            self.day_used(start_time, end_time, zone, day) ==> exists|i: int|
                0 <= i < ts.len() && (#[trigger] ts[i]).day == day
    }

    /// `ts` is the ranking of the projects by their committed time inside the
    /// range: every project with an entry in the range stands in it once,
    /// with the seconds of its entries, and the totals fall from the front.
    pub open spec fn is_project_ranking(self, start_time: u64, end_time: u64, ts: Seq<ProjectTotal>) -> bool {
        &&& ranking_ordered(ts)
        &&& forall|i: int|
            0 <= i < ts.len() ==> self.project_used(start_time, end_time, (#[trigger] ts[i]).project_id)
                && ts[i].total_seconds == self.project_total(
                start_time,
                end_time,
                ts[i].project_id,
            )
        &&& forall|project_id: u64| #[trigger]
            self.project_used(start_time, end_time, project_id) ==> exists|i: int|
                0 <= i < ts.len() && (#[trigger] ts[i]).project_id == project_id
    }
}

/// A project has an entry inside the range exactly when some position of the
/// ledger holds one.
pub proof fn lemma_project_used(es: Seq<TimeEntry>, start_time: u64, end_time: u64, project_id: u64)
    ensures
        (es.filter(in_range_and_project(start_time, end_time, project_id)).len() > 0) <==> (exists|
            j: int,
        |
            0 <= j < es.len() && start_time <= (#[trigger] es[j]).start_time <= end_time
                && es[j].project_id == project_id),
{
    let p = in_range_and_project(start_time, end_time, project_id);
    let f = es.filter(p);
    lemma_filter_members(es, p);
    if f.len() > 0 {
        assert(f.contains(f[0]));
        assert(es.contains(f[0]));
        let j = choose|j: int| 0 <= j < es.len() && es[j] == f[0];
        assert(p(es[j]));
    }
    if exists|j: int|
        0 <= j < es.len() && start_time <= (#[trigger] es[j]).start_time <= end_time
            && es[j].project_id == project_id {
        let j = choose|j: int|
            0 <= j < es.len() && start_time <= (#[trigger] es[j]).start_time <= end_time
                && es[j].project_id == project_id;
        assert(es.contains(es[j]));
        assert(p(es[j]));
        assert(f.contains(es[j]));
    }
}

/// The sum of a list with one more entry.
pub proof fn lemma_duration_sum_push(es: Seq<TimeEntry>, e: TimeEntry)
    ensures
        duration_sum(es.push(e)) == duration_sum(es) + e.duration_seconds,
        duration_sum(es) >= 0,
    decreases es.len(),
{
    assert(es.push(e).drop_last() =~= es);
    if es.len() > 0 {
        lemma_duration_sum_push(es.drop_last(), es.last());
        assert(es.drop_last().push(es.last()) =~= es);
    }
}

/// The seconds of the entries of `es` that satisfy `p`, held at the largest
/// number, and whether there is such an entry.
pub fn sum_where(es: &Vec<TimeEntry>, start_time: u64, end_time: u64, bucket: Bucket) -> (r: (
    u64,
    bool,
))
    ensures
        r.0 == capped(duration_sum(es@.filter(in_bucket(start_time, end_time, bucket)))),
        r.1 == (es@.filter(in_bucket(start_time, end_time, bucket)).len() > 0),
{
    let ghost p = in_bucket(start_time, end_time, bucket);
    let mut total: u64 = 0;
    let mut any: bool = false;
    let mut i: usize = 0;
    while i < es.len()
        invariant
            i <= es.len(),
            p == in_bucket(start_time, end_time, bucket),
            total == capped(duration_sum(es@.take(i as int).filter(p))),
            duration_sum(es@.take(i as int).filter(p)) >= 0,
            any == (es@.take(i as int).filter(p).len() > 0),
        decreases es.len() - i,
    {
        let e = es[i];
        proof {
            lemma_filter_take_step(es@, p, i as int);
            lemma_duration_sum_push(es@.take(i as int).filter(p), e);
        }
        let hit = start_time <= e.start_time && e.start_time <= end_time && (match bucket {
            Bucket::Hour(h) => (e.start_time % 86400) / 3600 == h as u64,
            Bucket::Project(p) => e.project_id == p,
        });
        if hit {
            total = total.saturating_add(e.duration_seconds);
            any = true;
        }
        i += 1;
    }
    assert(es@.take(es.len() as int) =~= es@);
    (total, any)
}

/// The offset that a table gives for the second `t`.
pub fn find_offset(zone: &Vec<OffsetAt>, t: u64) -> (r: i32)
    ensures
        r == offset_at(zone@, t),
{
    let mut i: usize = 0;
    while i < zone.len()
        invariant
            i <= zone.len(),
            forall|j: int| 0 <= j < i ==> !#[trigger] offset_is_at(t)(zone@[j]),
        decreases zone.len() - i,
    {
        if zone[i].at == t {
            proof {
                assert(offset_is_at(t)(zone@[i as int]));
                lemma_first_match_found(zone@, offset_is_at(t), i as int);
            }
            return zone[i].utc_offset_seconds;
        }
        i += 1;
    }
    proof {
        lemma_first_match_none(zone@, offset_is_at(t));
    }
    0
}

/// The seconds of the entries of the range that start on a local day, held
/// at the largest number, and whether there is such an entry.
pub fn sum_of_day(es: &Vec<TimeEntry>, start_time: u64, end_time: u64, zone: &Vec<OffsetAt>, day: i64) -> (r: (
    u64,
    bool,
))
    ensures
        r.0 == capped(
            duration_sum(es@.filter(in_range_and_day(start_time, end_time, zone@, day as int))),
        ),
        r.1 == (es@.filter(in_range_and_day(start_time, end_time, zone@, day as int)).len() > 0),
{
    let ghost p = in_range_and_day(start_time, end_time, zone@, day as int);
    let mut total: u64 = 0;
    let mut any: bool = false;
    let mut i: usize = 0;
    while i < es.len()
        invariant
            i <= es.len(),
            p == in_range_and_day(start_time, end_time, zone@, day as int),
            total == capped(duration_sum(es@.take(i as int).filter(p))),
            duration_sum(es@.take(i as int).filter(p)) >= 0,
            any == (es@.take(i as int).filter(p).len() > 0),
        decreases es.len() - i,
    {
        let e = es[i];
        proof {
            lemma_filter_take_step(es@, p, i as int);
            lemma_duration_sum_push(es@.take(i as int).filter(p), e);
        }
        if start_time <= e.start_time && e.start_time <= end_time && local_day_number(
            e.start_time,
            find_offset(zone, e.start_time),
        ) == day {
            total = total.saturating_add(e.duration_seconds);
            any = true;
        }
        i += 1;
    }
    assert(es@.take(es.len() as int) =~= es@);
    (total, any)
}

/// Puts an entry at its place in a listing.
///
/// The entry carries an id above those of the listing, so that it stands
/// behind every entry that starts no later than it does.
pub fn insert_in_listing(out: &mut Vec<TimeEntry>, e: TimeEntry)
    requires
        listing_ordered(old(out)@),
        forall|a: int| 0 <= a < old(out)@.len() ==> (#[trigger] old(out)@[a]).id < e.id,
    ensures
        final(out)@ == old(out)@.insert(old(out)@.filter(comes_before(e)).len() as int, e),
        listing_ordered(final(out)@),
        forall|x: TimeEntry| final(out)@.contains(x) <==> (old(out)@.contains(x) || x == e),
{
    let ghost before = out@;
    let mut pos: usize = 0;
    while pos < out.len() && out[pos].start_time <= e.start_time
        invariant
            pos <= out.len(),
            out@ == before,
            forall|k: int| 0 <= k < pos ==> (#[trigger] out@[k]).start_time <= e.start_time,
        decreases out.len() - pos,
    {
        pos += 1;
    }
    proof {
        assert forall|k: int| pos <= k < before.len() implies (#[trigger] before[k]).start_time
            > e.start_time by {
            if k > pos {
                assert(entry_before(before[pos as int], before[k]));
            }
        }
        assert forall|k: int| 0 <= k < pos implies #[trigger] comes_before(e)(before[k]) by {
            assert(before[k].start_time <= e.start_time);
            assert(before[k].id < e.id);
        }
        assert forall|k: int| pos <= k < before.len() implies !#[trigger] comes_before(e)(
            before[k],
        ) by {
            assert(before[k].start_time > e.start_time);
        }
        lemma_filter_prefix(before, comes_before(e), pos as int);
    }
    out.insert(pos, e);
    proof {
        let after = out@;
        assert forall|a: int, b: int| 0 <= a < b < after.len() implies entry_before(
            after[a],
            after[b],
        ) by {
            let a0 = if a < pos { a } else { a - 1 };
            let b0 = if b < pos { b } else { b - 1 };
            if a != pos && b != pos {
                assert(entry_before(before[a0], before[b0]));
            } else if a == pos {
                assert(before[b0].start_time > e.start_time);
            } else {
                assert(before[a0].start_time <= e.start_time);
                assert(before[a0].id < e.id);
            }
        }
        assert forall|x: TimeEntry| after.contains(x) <==> (before.contains(x) || x == e) by {
            if after.contains(x) {
                let k = choose|k: int| 0 <= k < after.len() && after[k] == x;
                if k < pos {
                    assert(before[k] == x);
                } else if k > pos {
                    assert(before[k - 1] == x);
                }
            }
            if before.contains(x) {
                let k = choose|k: int| 0 <= k < before.len() && before[k] == x;
                if k < pos {
                    assert(after[k] == x);
                } else {
                    assert(after[k + 1] == x);
                }
            }
            if x == e {
                assert(after[pos as int] == x);
            }
        }
    }
}

/// The entries of a ledger that start inside the range (or all of them), in
/// the order of a listing.
pub fn list_entries(es: &Vec<TimeEntry>, ranged: bool, start_time: u64, end_time: u64) -> (r: Vec<TimeEntry>)
    requires
        entries_ordered(es@),
    ensures
        r@ == listing(
            if ranged {
                es@.filter(in_range(start_time, end_time))
            } else {
                es@
            },
        ),
        listing_ordered(r@),
        forall|x: TimeEntry|
            r@.contains(x) <==> (es@.contains(x) && (!ranged || in_range(start_time, end_time)(x))),
{
    let mut r: Vec<TimeEntry> = Vec::new();
    let mut i: usize = 0;
    while i < es.len()
        invariant
            i <= es.len(),
            entries_ordered(es@),
            r@ == listing(
                if ranged {
                    es@.take(i as int).filter(in_range(start_time, end_time))
                } else {
                    es@.take(i as int)
                },
            ),
            listing_ordered(r@),
            forall|x: TimeEntry|
                r@.contains(x) <==> (es@.take(i as int).contains(x) && (!ranged || in_range(
                    start_time,
                    end_time,
                )(x))),
        decreases es.len() - i,
    {
        let e = es[i];
        let ghost seen = es@.take(i as int);
        let ghost kept = if ranged {
            seen.filter(in_range(start_time, end_time))
        } else {
            seen
        };
        proof {
            lemma_filter_take_step(es@, in_range(start_time, end_time), i as int);
            assert(es@.take(i + 1) =~= seen.push(e));
            assert(kept.push(e).drop_last() =~= kept);
            let more = es@.take(i + 1);
            assert forall|x: TimeEntry| more.contains(x) <==> (seen.contains(x) || x == e) by {
                if more.contains(x) {
                    let k = choose|k: int| 0 <= k < more.len() && more[k] == x;
                    if k < i {
                        assert(seen[k] == x);
                    }
                }
                if seen.contains(x) {
                    let k = choose|k: int| 0 <= k < seen.len() && seen[k] == x;
                    assert(more[k] == x);
                }
                if x == e {
                    assert(more[i as int] == x);
                }
            }
            assert forall|a: int| 0 <= a < r@.len() implies (#[trigger] r@[a]).id < e.id by {
                assert(r@.contains(r@[a]));
                assert(seen.contains(r@[a]));
                let k = choose|k: int| 0 <= k < seen.len() && seen[k] == r@[a];
                assert(es@[k].id < es@[i as int].id);
            }
        }
        if !ranged || (start_time <= e.start_time && e.start_time <= end_time) {
            insert_in_listing(&mut r, e);
        }
        i += 1;
    }
    assert(es@.take(es.len() as int) =~= es@);
    r
}

/// A local day has an entry inside the range exactly when some position of
/// the ledger holds one.
pub proof fn lemma_day_used(es: Seq<TimeEntry>, start_time: u64, end_time: u64, zone: Seq<OffsetAt>, day: int)
    ensures
        (es.filter(in_range_and_day(start_time, end_time, zone, day)).len() > 0) <==> (
        exists|j: int|
            0 <= j < es.len() && start_time <= (#[trigger] es[j]).start_time <= end_time
                && zoned_day(zone, es[j].start_time) == day),
{
    let p = in_range_and_day(start_time, end_time, zone, day);
    let f = es.filter(p);
    lemma_filter_members(es, p);
    if f.len() > 0 {
        assert(f.contains(f[0]));
        assert(es.contains(f[0]));
        let j = choose|j: int| 0 <= j < es.len() && es[j] == f[0];
        assert(p(es[j]));
    }
    if exists|j: int|
        0 <= j < es.len() && start_time <= (#[trigger] es[j]).start_time <= end_time && zoned_day(zone, es[j].start_time) == day {
        let j = choose|j: int|
            0 <= j < es.len() && start_time <= (#[trigger] es[j]).start_time <= end_time
                && zoned_day(zone, es[j].start_time) == day;
        assert(es.contains(es[j]));
        assert(p(es[j]));
        assert(f.contains(es[j]));
    }
}

/// Puts a total at its place in a ranking that does not hold its project.
pub fn insert_in_ranking(out: &mut Vec<ProjectTotal>, t: ProjectTotal)
    requires
        ranking_ordered(old(out)@),
        forall|a: int| 0 <= a < old(out)@.len() ==> (#[trigger] old(out)@[a]).project_id != t.project_id,
    ensures
        ranking_ordered(final(out)@),
        final(out)@.len() == old(out)@.len() + 1,
        forall|x: ProjectTotal| final(out)@.contains(x) <==> (old(out)@.contains(x) || x == t),
{
    let ghost before = out@;
    let mut pos: usize = 0;
    while pos < out.len() && (out[pos].total_seconds > t.total_seconds || (out[pos].total_seconds
        == t.total_seconds && out[pos].project_id < t.project_id))
        invariant
            pos <= out.len(),
            out@ == before,
            forall|k: int| 0 <= k < pos ==> total_before(#[trigger] out@[k], t),
        decreases out.len() - pos,
    {
        pos += 1;
    }
    proof {
        assert forall|k: int| pos <= k < before.len() implies total_before(
            t,
            #[trigger] before[k],
        ) by {
            assert(before[pos as int].project_id != t.project_id);
            assert(total_before(t, before[pos as int]));
            if k > pos {
                assert(total_before(before[pos as int], before[k]));
            }
        }
    }
    out.insert(pos, t);
    proof {
        let after = out@;
        assert forall|a: int, b: int| 0 <= a < b < after.len() implies total_before(
            after[a],
            after[b],
        ) by {
            let a0 = if a < pos { a } else { a - 1 };
            let b0 = if b < pos { b } else { b - 1 };
            if a != pos && b != pos {
                assert(total_before(before[a0], before[b0]));
            } else if a == pos {
                assert(total_before(t, before[b0]));
            } else {
                assert(total_before(before[a0], t));
            }
        }
        assert forall|x: ProjectTotal| after.contains(x) <==> (before.contains(x) || x == t) by {
            if after.contains(x) {
                let k = choose|k: int| 0 <= k < after.len() && after[k] == x;
                if k < pos {
                    assert(before[k] == x);
                } else if k > pos {
                    assert(before[k - 1] == x);
                }
            }
            if before.contains(x) {
                let k = choose|k: int| 0 <= k < before.len() && before[k] == x;
                if k < pos {
                    assert(after[k] == x);
                } else {
                    assert(after[k + 1] == x);
                }
            }
            if x == t {
                assert(after[pos as int] == x);
            }
        }
    }
}

/// Decides whether a ranking holds a project.
pub fn ranking_holds(out: &Vec<ProjectTotal>, project_id: u64) -> (b: bool)
    ensures
        b == (exists|k: int| 0 <= k < out@.len() && (#[trigger] out@[k]).project_id == project_id),
{
    let mut k: usize = 0;
    while k < out.len()
        invariant
            k <= out.len(),
            forall|a: int| 0 <= a < k ==> (#[trigger] out@[a]).project_id != project_id,
        decreases out.len() - k,
    {
        if out[k].project_id == project_id {
            return true;
        }
        k += 1;
    }
    false
}

impl Store {
    /// The committed time of the range by local day, in rising order of the
    /// day. The local day of an entry is the day on which it starts under the
    /// offset that `zone` gives for the second of its start. A day on
    /// which no entry starts is left out.
    pub fn query_daily_totals(&self, start_time: u64, end_time: u64, zone: &Vec<OffsetAt>) -> (r: Vec<
        DayTotal,
    >)
        ensures
            self@.is_daily_summary(start_time, end_time, zone@, r@),
            forall|i: int| 0 <= i < r@.len() ==> (#[trigger] r@[i]).day >= -146097,
    {
        let es = self.entry_rows();
        let ghost s = self@;
        let mut r: Vec<DayTotal> = Vec::new();
        let mut i: usize = 0;
        while i < es.len()
            invariant
                i <= es.len(),
                es@ == s.entries,
                s == self@,
                days_ordered(r@),
                forall|k: int| 0 <= k < r@.len() ==> (#[trigger] r@[k]).day >= -146097,
                forall|k: int|
                    0 <= k < r@.len() ==> s.day_used(
                        start_time,
                        end_time,
                        zone@,
                        (#[trigger] r@[k]).day as int,
                    ) && r@[k].total_seconds == s.day_total(
                        start_time,
                        end_time,
                        zone@,
                        r@[k].day as int,
                    ),
                forall|j: int|
                    0 <= j < i && start_time <= (#[trigger] es@[j]).start_time <= end_time
                        ==> exists|k: int|
                        0 <= k < r@.len() && (#[trigger] r@[k]).day == zoned_day(zone@, es@[j].start_time),
            decreases es.len() - i,
        {
            let e = es[i];
            if start_time <= e.start_time && e.start_time <= end_time {
                let day = local_day_number(e.start_time, find_offset(zone, e.start_time));
                let mut pos: usize = 0;
                while pos < r.len() && r[pos].day < day
                    invariant
                        pos <= r.len(),
                        forall|k: int| 0 <= k < pos ==> (#[trigger] r@[k]).day < day,
                    decreases r.len() - pos,
                {
                    pos += 1;
                }
                if pos < r.len() && r[pos].day == day {
                } else {
                    let (total, any) = sum_of_day(es, start_time, end_time, zone, day);
                    let t = DayTotal { day, total_seconds: total };
                    let ghost before = r@;
                    proof {
                        lemma_day_used(es@, start_time, end_time, zone@, day as int);
                        assert forall|k: int| pos <= k < before.len() implies (#[trigger] before[k]).day
                            > day by {
                            if k > pos {
                                assert(before[pos as int].day < before[k].day);
                            }
                        }
                    }
                    r.insert(pos, t);
                    proof {
                        let after = r@;
                        assert forall|a: int, b: int| 0 <= a < b < after.len() implies after[a].day
                            < after[b].day by {
                            let a0 = if a < pos { a } else { a - 1 };
                            let b0 = if b < pos { b } else { b - 1 };
                            if a != pos && b != pos {
                                assert(before[a0].day < before[b0].day);
                            } else if a == pos {
                                assert(before[b0].day > day);
                            } else {
                                assert(before[a0].day < day);
                            }
                        }
                        assert forall|k: int| 0 <= k < after.len() implies (#[trigger] after[k]).day
                            >= -146097 && s.day_used(
                            start_time,
                            end_time,
                            zone@,
                            after[k].day as int,
                        ) && after[k].total_seconds == s.day_total(
                            start_time,
                            end_time,
                            zone@,
                            after[k].day as int,
                        ) by {
                            let k0 = if k < pos { k } else { k - 1 };
                            if k != pos {
                                assert(before[k0].day >= -146097);
                            }
                        }
                        assert forall|j: int|
                            0 <= j < i + 1 && start_time <= (#[trigger] es@[j]).start_time
                                <= end_time implies exists|k: int|
                            0 <= k < after.len() && (#[trigger] after[k]).day == zoned_day(zone@, es@[j].start_time) by {
                            if j < i {
                                let a = choose|a: int|
                                    0 <= a < before.len() && (#[trigger] before[a]).day == zoned_day(zone@, es@[j].start_time);
                                let k = if a < pos { a } else { a + 1 };
                                assert(after[k] == before[a]);
                            } else {
                                assert(after[pos as int].day == day);
                            }
                        }
                    }
                }
            }
            i += 1;
        }
        proof {
            assert forall|day: int| #[trigger]
                s.day_used(start_time, end_time, zone@, day) implies exists|k: int|
                0 <= k < r@.len() && (#[trigger] r@[k]).day == day by {
                lemma_day_used(es@, start_time, end_time, zone@, day);
                let j = choose|j: int|
                    0 <= j < es@.len() && start_time <= (#[trigger] es@[j]).start_time <= end_time
                        && zoned_day(zone@, es@[j].start_time) == day;
                assert(start_time <= es@[j].start_time <= end_time);
            }
        }
        r
    }

    /// The projects by their committed time inside `start_time ..=
    /// end_time`, the largest total first, and the smaller project id first
    /// among equal totals. A project without an entry in the range is left
    /// out.
    pub fn query_project_totals(&self, start_time: u64, end_time: u64) -> (r: Vec<ProjectTotal>)
        ensures
            self@.is_project_ranking(start_time, end_time, r@),
    {
        let es = self.entry_rows();
        let ghost s = self@;
        let mut r: Vec<ProjectTotal> = Vec::new();
        let mut i: usize = 0;
        while i < es.len()
            invariant
                i <= es.len(),
                es@ == s.entries,
                s == self@,
                ranking_ordered(r@),
                forall|k: int|
                    0 <= k < r@.len() ==> s.project_used(
                        start_time,
                        end_time,
                        (#[trigger] r@[k]).project_id,
                    ) && r@[k].total_seconds == s.project_total(
                        start_time,
                        end_time,
                        r@[k].project_id,
                    ),
                forall|j: int|
                    0 <= j < i && start_time <= (#[trigger] es@[j]).start_time <= end_time
                        ==> exists|k: int|
                        0 <= k < r@.len() && (#[trigger] r@[k]).project_id == es@[j].project_id,
            decreases es.len() - i,
        {
            let e = es[i];
            if start_time <= e.start_time && e.start_time <= end_time && !ranking_holds(
                &r,
                e.project_id,
            ) {
                let (total, any) = sum_where(es, start_time, end_time, Bucket::Project(e.project_id));
                let t = ProjectTotal { project_id: e.project_id, total_seconds: total };
                let ghost before = r@;
                proof {
                    lemma_project_used(es@, start_time, end_time, e.project_id);
                }
                insert_in_ranking(&mut r, t);
                proof {
                    assert forall|k: int| 0 <= k < r@.len() implies s.project_used(
                        start_time,
                        end_time,
                        (#[trigger] r@[k]).project_id,
                    ) && r@[k].total_seconds == s.project_total(
                        start_time,
                        end_time,
                        r@[k].project_id,
                    ) by {
                        assert(r@.contains(r@[k]));
                        if before.contains(r@[k]) {
                            let a = choose|a: int| 0 <= a < before.len() && before[a] == r@[k];
                            assert(s.project_used(start_time, end_time, before[a].project_id));
                        }
                    }
                    assert forall|j: int|
                        0 <= j < i + 1 && start_time <= (#[trigger] es@[j]).start_time
                            <= end_time implies exists|k: int|
                        0 <= k < r@.len() && (#[trigger] r@[k]).project_id
                            == es@[j].project_id by {
                        if j < i {
                            let a = choose|a: int|
                                0 <= a < before.len() && (#[trigger] before[a]).project_id
                                    == es@[j].project_id;
                            assert(r@.contains(before[a]));
                            let k = choose|k: int| 0 <= k < r@.len() && r@[k] == before[a];
                            assert(r@[k].project_id == es@[j].project_id);
                        } else {
                            assert(r@.contains(t));
                            let k = choose|k: int| 0 <= k < r@.len() && r@[k] == t;
                            assert(r@[k].project_id == es@[j].project_id);
                        }
                    }
                }
            }
            i += 1;
        }
        proof {
            assert forall|project_id: u64| #[trigger]
                s.project_used(start_time, end_time, project_id) implies exists|k: int|
                0 <= k < r@.len() && (#[trigger] r@[k]).project_id == project_id by {
                lemma_project_used(es@, start_time, end_time, project_id);
                let j = choose|j: int|
                    0 <= j < es@.len() && start_time <= (#[trigger] es@[j]).start_time <= end_time
                        && es@[j].project_id == project_id;
                assert(start_time <= es@[j].start_time <= end_time);
            }
        }
        r
    }

    /// The entries that start inside `start_time ..= end_time`, by start, and
    /// by id among those that start at the same second.
    pub fn query_time_entries(&self, start_time: u64, end_time: u64) -> (r: Vec<TimeEntry>)
        requires
            self@.wf(),
        ensures
            r@ == self@.time_entries(start_time, end_time),
            listing_ordered(r@),
            forall|x: TimeEntry|
                r@.contains(x) <==> (self@.entries.contains(x) && start_time <= x.start_time
                    <= end_time),
    {
        list_entries(self.entry_rows(), true, start_time, end_time)
    }

    /// Every entry of the ledger, by start, and by id among those that start
    /// at the same second.
    pub fn query_all_time_entries(&self) -> (r: Vec<TimeEntry>)
        requires
            self@.wf(),
        ensures
            r@ == self@.all_time_entries(),
            listing_ordered(r@),
            forall|x: TimeEntry| r@.contains(x) <==> self@.entries.contains(x),
    {
        list_entries(self.entry_rows(), false, 0, 0)
    }

    /// The committed time of the range by hour of the day, in increasing
    /// order of the hour. Every day of the range counts towards the same 24
    /// hours; an hour in which no entry starts is left out.
    pub fn query_hourly_activity(&self, start_time: u64, end_time: u64) -> (r: Vec<HourlyActivity>)
        ensures
            r@ == self@.hourly_activity(start_time, end_time),
    {
        let es = self.entry_rows();
        let mut r: Vec<HourlyActivity> = Vec::new();
        let mut h: u32 = 0;
        while h < 24
            invariant
                h <= 24,
                es@ == self@.entries,
                r@ == hourly(es@, start_time, end_time, h as nat),
            decreases 24 - h,
        {
            let (total, any) = sum_where(es, start_time, end_time, Bucket::Hour(h));
            if any {
                r.push(HourlyActivity { hour: h, total_seconds: total });
            }
            h += 1;
        }
        r
    }
}

impl Engine {
    /// The committed entries that start inside `start_time ..= end_time`, by
    /// start.
    pub fn get_time_entries(&self, start_time: u64, end_time: u64) -> (r: Vec<TimeEntry>)
        requires
            self@.wf(),
        ensures
            r@ == self@.store.time_entries(start_time, end_time),
            listing_ordered(r@),
            forall|x: TimeEntry|
                r@.contains(x) <==> (self@.store.entries.contains(x) && start_time <= x.start_time
                    <= end_time),
    {
        self.store.query_time_entries(start_time, end_time)
    }

    /// Every committed entry, by start.
    pub fn get_all_time_entries(&self) -> (r: Vec<TimeEntry>)
        requires
            self@.wf(),
        ensures
            r@ == self@.store.all_time_entries(),
            listing_ordered(r@),
            forall|x: TimeEntry| r@.contains(x) <==> self@.store.entries.contains(x),
    {
        self.store.query_all_time_entries()
    }

    /// The committed time of the range by calendar day, in rising order of
    /// the date, each date as text with year, month and day. The date of an
    /// entry is the day on which it starts under the offset that `zone` gives
    /// for the second of its start; an entry for whose start `zone` gives no
    /// offset is taken in universal time.
    pub fn get_daily_activity(&self, start_time: u64, end_time: u64, zone: &Vec<OffsetAt>) -> (r: Vec<
        DailyActivity,
    >)
        ensures
            exists|ts: Seq<DayTotal>|
                #![trigger daily_matches(r@, ts)]
                self@.store.is_daily_summary(start_time, end_time, zone@, ts)
                    && daily_matches(r@, ts),
    {
        let totals = self.store.query_daily_totals(start_time, end_time, zone);
        let mut r: Vec<DailyActivity> = Vec::new();
        let mut i: usize = 0;
        while i < totals.len()
            invariant
                i <= totals.len(),
                forall|k: int| 0 <= k < totals@.len() ==> (#[trigger] totals@[k]).day >= -146097,
                daily_matches(r@, totals@.take(i as int)),
            decreases totals.len() - i,
        {
            let t = totals[i];
            let date = date_of_day(t.day);
            let text = date_string(date);
            let ghost before = r@;
            r.push(DailyActivity { date: text, total_seconds: t.total_seconds });
            proof {
                let ts = totals@.take(i + 1);
                assert forall|k: int| 0 <= k < r@.len() implies (#[trigger] r@[k]).total_seconds
                    == ts[k].total_seconds && is_text_of_day(r@[k].date@, ts[k].day as int) by {
                    if k < i {
                        assert(r@[k] == before[k]);
                        assert(ts[k] == totals@.take(i as int)[k]);
                    } else {
                        assert(date_text(date) == r@[k].date@);
                    }
                }
            }
            i += 1;
        }
        assert(totals@.take(totals.len() as int) =~= totals@);
        assert(daily_matches(r@, totals@));
        r
    }

    /// The projects by their committed time inside `start_time ..=
    /// end_time`, the largest total first, each under the name of the first
    /// project in rotation with its id, or under `Unknown` where the rotation
    /// holds no such project.
    pub fn get_project_time_stats(&self, start_time: u64, end_time: u64) -> (r: Vec<ProjectTimeStats>)
        ensures
            self@.store.is_project_ranking(start_time, end_time, totals_of(r@)),
            forall|i: int|
                0 <= i < r@.len() ==> (#[trigger] r@[i]).project_name@ == shown_name(
                    self@.projects,
                    r@[i].project_id,
                ),
    {
        let totals = self.store.query_project_totals(start_time, end_time);
        let mut r: Vec<ProjectTimeStats> = Vec::new();
        let mut i: usize = 0;
        while i < totals.len()
            invariant
                i <= totals.len(),
                totals_of(r@) == totals@.take(i as int),
                forall|k: int|
                    0 <= k < r@.len() ==> (#[trigger] r@[k]).project_name@ == shown_name(
                        self@.projects,
                        r@[k].project_id,
                    ),
            decreases totals.len() - i,
        {
            let t = totals[i];
            let name = match find_project(&self.projects, t.project_id) {
                Some(k) => {
                    proof {
                        lemma_first_match_is_first(self@.projects, project_has_id(t.project_id));
                    }
                    self.projects[k].name.clone()
                },
                None => "Unknown".to_owned(),
            };
            let ghost before = r@;
            r.push(
                ProjectTimeStats {
                    project_id: t.project_id,
                    project_name: name,
                    total_seconds: t.total_seconds,
                },
            );
            assert(totals_of(r@) =~= totals_of(before).push(t));
            assert(totals@.take(i + 1) =~= totals@.take(i as int).push(t));
            i += 1;
        }
        assert(totals@.take(totals.len() as int) =~= totals@);
        r
    }

    /// The committed time of the range by hour of the day.
    pub fn get_hourly_activity(&self, start_time: u64, end_time: u64) -> (r: Vec<HourlyActivity>)
        ensures
            r@ == self@.store.hourly_activity(start_time, end_time),
    {
        self.store.query_hourly_activity(start_time, end_time)
    }
}

} // verus!

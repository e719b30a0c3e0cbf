//! What holds of the engine across its operations.

use vstd::prelude::*;
use crate::engine::{
    names_mirror, owners_agree, project_has_id, project_index, rows_mirror, session_index,
    session_of_task, sessions_distinct, task_has_id, task_index, EngineView,
};
use crate::model::{ActiveTracking, MIN_TRACKED_SECONDS, ProjectView, TimeEntry};
use crate::projects::sessions_dropped;
use crate::queries::{
    project_row_active, project_row_archived, project_row_has_id, status_project,
    task_row_active_of, task_row_archived_of, task_row_visible, tasks_of,
};
use crate::seq_util::{
    first_match, lemma_filter_members, lemma_first_match_found, lemma_first_match_is_first,
    lemma_first_match_none,
};
use crate::store::{
    id_after, last_entry_id, project_rows_updated, task_rows_archived, ProjectChange, ProjectRow,
    StoreView,
};
use crate::tracking::{capped, elapsed_at, elapsed_sum, holds_task};
use crate::validity::{
    lemma_filter_keeps_project_rows, lemma_remove_project_keeps_wf, lemma_restore_project_keeps_wf,
};

verus! {

/// A session that is stopped before it has run for `MIN_TRACKED_SECONDS`
/// leaves no trace: the time of every task, the ledger and the journal stay
/// as they are.
pub proof fn lemma_short_session_is_discarded(s: EngineView, session: ActiveTracking, now: u64)
    requires
        elapsed_at(session.started_at, now) < MIN_TRACKED_SECONDS,
    ensures
        s.commit(session, now) == s,
{
}

/// A session that is stopped after at least `MIN_TRACKED_SECONDS`, against a
/// task that the rotation holds, is committed: the task gains the seconds
/// that the session ran, and the ledger gains one entry that spans the
/// session.
pub proof fn lemma_long_session_is_committed(s: EngineView, session: ActiveTracking, now: u64)
    requires
        s.store.wf(),
        elapsed_at(session.started_at, now) >= MIN_TRACKED_SECONDS,
        project_index(s.projects, session.project_id) is Some,
        task_index(
            s.projects[project_index(s.projects, session.project_id).unwrap()].tasks,
            session.task_id,
        ) is Some,
        id_after(last_entry_id(s.store.entries)) < u64::MAX,
    ensures
        ({
            let pi = project_index(s.projects, session.project_id).unwrap();
            let ti = task_index(s.projects[pi].tasks, session.task_id).unwrap();
            let after = s.commit(session, now);
            let elapsed = elapsed_at(session.started_at, now);
            &&& after.projects[pi].tasks[ti].time_seconds == capped(
                s.projects[pi].tasks[ti].time_seconds + elapsed,
            )
            &&& after.store.entries == s.store.entries.push(
                TimeEntry {
                    id: id_after(last_entry_id(s.store.entries)),
                    project_id: session.project_id,
                    task_id: session.task_id,
                    start_time: session.started_at,
                    end_time: now,
                    duration_seconds: elapsed,
                },
            )
        }),
{
    lemma_first_match_is_first(s.projects, project_has_id(session.project_id));
    let pi = project_index(s.projects, session.project_id).unwrap();
    lemma_first_match_is_first(s.projects[pi].tasks, task_has_id(session.task_id));
}

/// Committing sessions changes neither which projects and tasks the rotation
/// holds nor where they stand.
pub proof fn lemma_commit_keeps_shape(s: EngineView, session: ActiveTracking, now: u64)
    ensures
        s.commit(session, now).projects.len() == s.projects.len(),
        forall|i: int|
            0 <= i < s.projects.len() ==> (#[trigger] s.commit(session, now).projects[i]).id
                == s.projects[i].id && s.commit(session, now).projects[i].tasks.len()
                == s.projects[i].tasks.len(),
        forall|i: int, j: int|
            0 <= i < s.projects.len() && 0 <= j < s.projects[i].tasks.len() ==> (#[trigger] s.commit(
                session,
                now,
            ).projects[i].tasks[j]).id == s.projects[i].tasks[j].id,
        s.commit(session, now).sessions == s.sessions,
{
    lemma_first_match_is_first(s.projects, project_has_id(session.project_id));
    match project_index(s.projects, session.project_id) {
        Some(pi) => {
            lemma_first_match_is_first(s.projects[pi].tasks, task_has_id(session.task_id));
        },
        None => {},
    }
}

/// Committing a list of sessions changes neither which projects and tasks
/// the rotation holds nor where they stand.
pub proof fn lemma_commit_all_keeps_shape(s: EngineView, ss: Seq<ActiveTracking>, now: u64)
    ensures
        s.commit_all(ss, now).projects.len() == s.projects.len(),
        forall|i: int|
            0 <= i < s.projects.len() ==> (#[trigger] s.commit_all(ss, now).projects[i]).id
                == s.projects[i].id && s.commit_all(ss, now).projects[i].tasks.len()
                == s.projects[i].tasks.len(),
        forall|i: int, j: int|
            0 <= i < s.projects.len() && 0 <= j < s.projects[i].tasks.len() ==> (
            #[trigger] s.commit_all(ss, now).projects[i].tasks[j]).id == s.projects[i].tasks[j].id,
        s.commit_all(ss, now).sessions == s.sessions,
    decreases ss.len(),
{
    if ss.len() > 0 {
        let before = s.commit_all(ss.drop_last(), now);
        lemma_commit_all_keeps_shape(s, ss.drop_last(), now);
        lemma_commit_keeps_shape(before, ss.last(), now);
        let after = before.commit(ss.last(), now);
        assert forall|i: int| 0 <= i < s.projects.len() implies (#[trigger] after.projects[i]).id
            == s.projects[i].id && after.projects[i].tasks.len() == s.projects[i].tasks.len() by {
            assert(before.projects[i].id == s.projects[i].id);
        }
        assert forall|i: int, j: int|
            0 <= i < s.projects.len() && 0 <= j < s.projects[i].tasks.len() implies (
        #[trigger] after.projects[i].tasks[j]).id == s.projects[i].tasks[j].id by {
            assert(before.projects[i].id == s.projects[i].id);
            assert(before.projects[i].tasks[j].id == s.projects[i].tasks[j].id);
        }
    }
}

/// Two lists of projects with the same ids in the same places hold the same
/// tasks.
pub proof fn lemma_same_ids_hold_same_tasks(a: Seq<ProjectView>, b: Seq<ProjectView>, project_id: u64, task_id: u64)
    requires
        a.len() == b.len(),
        forall|i: int|
            0 <= i < a.len() ==> (#[trigger] a[i]).id == b[i].id && a[i].tasks.len()
                == b[i].tasks.len(),
        forall|i: int, j: int|
            0 <= i < a.len() && 0 <= j < a[i].tasks.len() ==> (#[trigger] a[i].tasks[j]).id
                == b[i].tasks[j].id,
    ensures
        holds_task(a, project_id, task_id) == holds_task(b, project_id, task_id),
{
    if holds_task(a, project_id, task_id) {
        let (i, j) = choose|i: int, j: int|
            0 <= i < a.len() && 0 <= j < a[i].tasks.len() && (#[trigger] a[i]).id == project_id && (
            #[trigger] a[i].tasks[j]).id == task_id;
        assert(b[i].id == project_id && b[i].tasks[j].id == task_id);
    }
    if holds_task(b, project_id, task_id) {
        let (i, j) = choose|i: int, j: int|
            0 <= i < b.len() && 0 <= j < b[i].tasks.len() && (#[trigger] b[i]).id == project_id && (
            #[trigger] b[i].tasks[j]).id == task_id;
        assert(a[i].id == project_id);
        assert(a[i].tasks[j].id == task_id);
    }
}

/// In exclusive mode, starting a task that the rotation holds and that has
/// no session stops whatever was running, commits its time, and leaves
/// exactly one session: the new one.
pub proof fn lemma_exclusive_start_leaves_one_session(
    s: EngineView,
    project_id: u64,
    task_id: u64,
    now: u64,
)
    requires
        session_index(s.sessions, task_id) is None,
        holds_task(s.projects, project_id, task_id),
    ensures
        s.start_tracking(project_id, task_id, false, now).sessions == seq![
            ActiveTracking { project_id, task_id, started_at: now },
        ],
        s.start_tracking(project_id, task_id, false, now).projects == s.commit_all(
            s.sessions,
            now,
        ).projects,
{
    let new = ActiveTracking { project_id, task_id, started_at: now };
    if s.sessions.len() > 0 {
        let stopped = s.stop_all(now);
        lemma_commit_all_keeps_shape(s, s.sessions, now);
        lemma_same_ids_hold_same_tasks(s.projects, stopped.projects, project_id, task_id);
        assert(stopped.begin(project_id, task_id, now).sessions =~= seq![new]);
    } else {
        assert(s.begin(project_id, task_id, now).sessions =~= seq![new]);
    }
}

/// In concurrent mode, starting a task that the rotation holds and that has
/// no session leaves every running session as it is and adds the new one
/// behind them; nothing is committed.
pub proof fn lemma_concurrent_start_keeps_sessions(
    s: EngineView,
    project_id: u64,
    task_id: u64,
    now: u64,
)
    requires
        session_index(s.sessions, task_id) is None,
        holds_task(s.projects, project_id, task_id),
    ensures
        s.start_tracking(project_id, task_id, true, now).sessions == s.sessions.push(
            ActiveTracking { project_id, task_id, started_at: now },
        ),
        s.start_tracking(project_id, task_id, true, now).projects == s.projects,
        s.start_tracking(project_id, task_id, true, now).store.entries == s.store.entries,
{
}

/// Stopping everything leaves no session and returns the seconds that the
/// sessions had run, all together.
pub proof fn lemma_stop_all_returns_the_sum(s: EngineView, now: u64)
    requires
        s.sessions.len() > 0,
    ensures
        s.stop_tracking(None, now).sessions.len() == 0,
        s.stop_tracking(None, now).store.sessions.len() == 0,
        s.stopped_seconds(None, now) == Some(capped(elapsed_sum(s.sessions, now))),
        s.stop_tracking(None, now).projects == s.commit_all(s.sessions, now).projects,
{
}

/// Starting a task never gives a task a second session.
pub proof fn lemma_start_keeps_one_session_per_task(
    s: EngineView,
    project_id: u64,
    task_id: u64,
    allow_multiple: bool,
    now: u64,
)
    requires
        sessions_distinct(s.sessions),
    ensures
        sessions_distinct(
            s.start_tracking(project_id, task_id, allow_multiple, now).sessions,
        ),
{
    let after = s.start_tracking(project_id, task_id, allow_multiple, now);
    lemma_first_match_is_first(s.sessions, session_of_task(task_id));
    if session_index(s.sessions, task_id) is Some {
    } else if !allow_multiple && s.sessions.len() > 0 {
        lemma_commit_all_keeps_shape(s, s.sessions, now);
    } else {
        assert forall|i: int, j: int| 0 <= i < j < after.sessions.len() implies after.sessions[i].task_id
            != after.sessions[j].task_id by {
            if j == s.sessions.len() {
                assert(!session_of_task(task_id)(s.sessions[i]));
            }
        }
    }
}

/// A project is added under an id that no project carries, neither in the
/// rotation nor in the store, whatever was deleted before.
pub proof fn lemma_added_project_id_is_fresh(s: EngineView, name: String)
    requires
        s.wf(),
        s.next_project_id < u64::MAX,
    ensures
        s.add_project(name).projects.last().id == s.next_project_id,
        forall|i: int| 0 <= i < s.projects.len() ==> (#[trigger] s.projects[i]).id != s.next_project_id,
        forall|i: int|
            0 <= i < s.store.projects.len() ==> (#[trigger] s.store.projects[i]).id
                != s.next_project_id,
        s.add_project(name).next_project_id > s.next_project_id,
{
}

/// A task is added under an id that no task carries, neither in the rotation
/// nor in the store, whatever was deleted before.
pub proof fn lemma_added_task_id_is_fresh(s: EngineView, project_id: u64, name: String)
    requires
        s.wf(),
        s.next_task_id < u64::MAX,
        project_index(s.projects, project_id) is Some,
    ensures
        ({
            let pi = project_index(s.projects, project_id).unwrap();
            s.add_task(project_id, name).projects[pi].tasks.last().id == s.next_task_id
        }),
        forall|i: int, j: int|
            0 <= i < s.projects.len() && 0 <= j < s.projects[i].tasks.len() ==> (
            #[trigger] s.projects[i].tasks[j]).id != s.next_task_id,
        forall|i: int|
            0 <= i < s.store.tasks.len() ==> (#[trigger] s.store.tasks[i]).task.id != s.next_task_id,
        s.add_task(project_id, name).next_task_id > s.next_task_id,
{
    lemma_first_match_is_first(s.projects, project_has_id(project_id));
}

/// Taking the sessions of a project out of the store touches neither the
/// project rows nor the task rows nor the ledger.
pub proof fn lemma_sessions_dropped_keeps_rows(store: StoreView, ss: Seq<ActiveTracking>, project_id: u64)
    ensures
        sessions_dropped(store, ss, project_id).projects == store.projects,
        sessions_dropped(store, ss, project_id).tasks == store.tasks,
        sessions_dropped(store, ss, project_id).entries == store.entries,
    decreases ss.len(),
{
    if ss.len() > 0 {
        lemma_sessions_dropped_keeps_rows(store, ss.drop_last(), project_id);
    }
}

/// Changing a column of the project row `id` leaves the row where it stands
/// and changes nothing else of it.
pub proof fn lemma_project_row_after_update(rows: Seq<ProjectRow>, id: u64, change: ProjectChange)
    ensures
        first_match(project_rows_updated(rows, id, change), project_row_has_id(id)) == first_match(
            rows,
            project_row_has_id(id),
        ),
        first_match(rows, project_row_has_id(id)) matches Some(i) ==> project_rows_updated(
            rows,
            id,
            change,
        )[i] == change.applied(rows[i]),
{
    let after = project_rows_updated(rows, id, change);
    let p = project_row_has_id(id);
    lemma_first_match_is_first(rows, p);
    match first_match(rows, p) {
        Some(i) => {
            assert(p(after[i]));
            assert forall|j: int| 0 <= j < i implies !#[trigger] p(after[j]) by {
                assert(!p(rows[j]));
            }
            lemma_first_match_found(after, p, i);
        },
        None => {
            assert forall|j: int| 0 <= j < after.len() implies !#[trigger] p(after[j]) by {
                assert(!p(rows[j]));
            }
            lemma_first_match_none(after, p);
        },
    }
}

/// A row of the store appears in the list of all projects, with its archive
/// status.
pub proof fn lemma_row_appears_with_status(s: StoreView, i: int)
    requires
        0 <= i < s.projects.len(),
    ensures
        s.all_projects_with_status().contains(status_project(s.tasks, s.projects[i])),
{
    let row = s.projects[i];
    let active = s.projects.filter(project_row_active());
    let archived = s.projects.filter(project_row_archived());
    lemma_filter_members(s.projects, project_row_active());
    lemma_filter_members(s.projects, project_row_archived());
    assert(s.projects.contains(row));
    let all = s.all_projects_with_status();
    if row.archived_at is None {
        assert(project_row_active()(row));
        assert(active.contains(row));
        let k = choose|k: int| 0 <= k < active.len() && active[k] == row;
        assert(all[k] == status_project(s.tasks, row));
    } else {
        assert(project_row_archived()(row));
        assert(archived.contains(row));
        let k = choose|k: int| 0 <= k < archived.len() && archived[k] == row;
        assert(all[active.len() + k] == status_project(s.tasks, row));
    }
}

/// No two entries of the list of all projects carry the same id.
pub proof fn lemma_status_list_has_distinct_ids(s: StoreView)
    requires
        s.wf(),
    ensures
        forall|a: int, b: int|
            0 <= a < b < s.all_projects_with_status().len() ==> (
            #[trigger] s.all_projects_with_status()[a]).id != (
            #[trigger] s.all_projects_with_status()[b]).id,
{
    let all = s.all_projects_with_status();
    let active = s.projects.filter(project_row_active());
    let archived = s.projects.filter(project_row_archived());
    lemma_filter_keeps_project_rows(s.projects, project_row_active());
    lemma_filter_keeps_project_rows(s.projects, project_row_archived());
    lemma_filter_members(s.projects, project_row_active());
    lemma_filter_members(s.projects, project_row_archived());
    let n = active.len() as int;
    assert forall|a: int, b: int| 0 <= a < b < all.len() implies (#[trigger] all[a]).id != (
    #[trigger] all[b]).id by {
        if b < n {
            assert(active[a].id < active[b].id);
        } else if a >= n {
            assert(archived[a - n].id < archived[b - n].id);
        } else {
            let x = active[a];
            let y = archived[b - n];
            assert(active.contains(x));
            assert(archived.contains(y));
            assert(s.projects.contains(x) && project_row_active()(x));
            assert(s.projects.contains(y) && project_row_archived()(y));
            let i = choose|i: int| 0 <= i < s.projects.len() && s.projects[i] == x;
            let j = choose|j: int| 0 <= j < s.projects.len() && s.projects[j] == y;
            if i < j {
                assert(s.projects[i].id < s.projects[j].id);
            } else if j < i {
                assert(s.projects[j].id < s.projects[i].id);
            }
        }
    }
}

/// An archived project leaves the rotation and stays in the list of all
/// projects.
///
/// Take a project that stands in the rotation. After it was archived at
/// `now`, the rotation holds no project with its id and keeps every other
/// project in its place in the order. Where the store holds the row of the
/// project, the list of all projects shows the project once, with `now` as
/// its archive stamp and with `now` as the archive stamp of each of its
/// tasks; and every task that the project held in the rotation and that the
/// store holds a row of is among them.
pub proof fn lemma_archived_project_is_listed(s: EngineView, project_id: u64, now: u64)
    requires
        s.wf(),
        project_index(s.projects, project_id) is Some,
    ensures
        ({
            let pos = project_index(s.projects, project_id).unwrap();
            let archived = s.remove_project(project_id, now);
            let all = archived.store.all_projects_with_status();
            &&& archived.wf()
            &&& archived.projects == s.projects.remove(pos)
            &&& project_index(archived.projects, project_id) is None
            &&& s.store.project_row(project_id) is Some ==> exists|k: int|
                {
                    &&& 0 <= k < all.len()
                    &&& (#[trigger] all[k]).id == project_id
                    &&& all[k].name == s.store.project_row(project_id).unwrap().name
                    &&& all[k].archived_at == Some(now)
                    &&& forall|m: int| 0 <= m < all.len() && all[m].id == project_id ==> m == k
                    &&& forall|l: int|
                        0 <= l < all[k].tasks.len() ==> (#[trigger] all[k].tasks[l]).archived_at
                            == Some(now)
                    &&& forall|j: int, r: int|
                        0 <= j < s.projects[pos].tasks.len() && 0 <= r < s.store.tasks.len() && (
                        #[trigger] s.store.tasks[r]).task.id == (
                        #[trigger] s.projects[pos].tasks[j]).id ==> exists|l: int|
                            0 <= l < all[k].tasks.len() && (#[trigger] all[k].tasks[l]).id
                                == s.projects[pos].tasks[j].id
                }
        }),
{
    reveal(owners_agree);
    lemma_first_match_is_first(s.projects, project_has_id(project_id));
    let pos = project_index(s.projects, project_id).unwrap();
    let archived = s.remove_project(project_id, now);
    lemma_remove_project_keeps_wf(s, project_id, now);
    assert forall|j: int| 0 <= j < archived.projects.len() implies !#[trigger] project_has_id(
        project_id,
    )(archived.projects[j]) by {
        if j < pos {
            assert(s.projects[j].id != s.projects[pos].id);
        } else {
            assert(s.projects[pos].id != s.projects[j + 1].id);
        }
    }
    lemma_first_match_none(archived.projects, project_has_id(project_id));
    if s.store.project_row(project_id) is Some {
        let p = project_row_has_id(project_id);
        let row = s.store.project_row(project_id).unwrap();
        lemma_first_match_is_first(s.store.projects, p);
        let i = first_match(s.store.projects, p).unwrap();
        lemma_sessions_dropped_keeps_rows(s.store, s.sessions, project_id);
        let stamp = ProjectChange::Archived(Some(now));
        lemma_project_row_after_update(s.store.projects, project_id, stamp);
        assert(archived.store.projects == project_rows_updated(
            s.store.projects,
            project_id,
            stamp,
        ));
        let rows = archived.store.tasks;
        assert(rows == task_rows_archived(s.store.tasks, project_id, Some(now)));
        lemma_row_appears_with_status(archived.store, i);
        let shown = status_project(rows, archived.store.projects[i]);
        let all = archived.store.all_projects_with_status();
        let k = choose|k: int| 0 <= k < all.len() && all[k] == shown;
        lemma_status_list_has_distinct_ids(archived.store);
        assert forall|m: int| 0 <= m < all.len() && all[m].id == project_id implies m == k by {
            if m < k {
                assert(all[m].id != all[k].id);
            } else if k < m {
                assert(all[k].id != all[m].id);
            }
        }
        let live = rows.filter(task_row_active_of(project_id));
        let gone = rows.filter(task_row_archived_of(project_id));
        lemma_filter_members(rows, task_row_active_of(project_id));
        lemma_filter_members(rows, task_row_archived_of(project_id));
        if live.len() > 0 {
            assert(live.contains(live[0]));
            assert(rows.contains(live[0]));
            let m = choose|m: int| 0 <= m < rows.len() && rows[m] == live[0];
            assert(task_row_active_of(project_id)(rows[m]));
            assert(false);
        }
        assert(shown.tasks =~= tasks_of(gone));
        assert forall|l: int| 0 <= l < shown.tasks.len() implies (#[trigger] shown.tasks[l]).archived_at
            == Some(now) by {
            assert(gone.contains(gone[l]));
            assert(rows.contains(gone[l]));
            let m = choose|m: int| 0 <= m < rows.len() && rows[m] == gone[l];
            assert(task_row_archived_of(project_id)(rows[m]));
        }
        assert forall|j: int, r: int|
            0 <= j < s.projects[pos].tasks.len() && 0 <= r < s.store.tasks.len() && (
            #[trigger] s.store.tasks[r]).task.id == (
            #[trigger] s.projects[pos].tasks[j]).id implies exists|l: int|
            0 <= l < shown.tasks.len() && (#[trigger] shown.tasks[l]).id
                == s.projects[pos].tasks[j].id by {
            assert(s.store.tasks[r].task.project_id == s.projects[pos].id);
            assert(task_row_archived_of(project_id)(rows[r]));
            assert(rows.contains(rows[r]));
            assert(gone.contains(rows[r]));
            let l = choose|l: int| 0 <= l < gone.len() && gone[l] == rows[r];
            assert(shown.tasks[l].id == s.projects[pos].tasks[j].id);
        }
        assert(all[k].id == project_id);
    }
}

/// Archiving a project and restoring it is a round trip.
///
/// Take a project that stands in the rotation and whose row the store holds.
/// After it was archived at `now`, the rotation holds no project with its id
/// and keeps the others in their order, and the list of all projects still
/// shows it, with `now` as its archive stamp. After it was restored at
/// `later`, its row and the rows of its tasks carry no archive stamp, and it
/// stands at the end of the rotation, once, under its name, with every task
/// of its rows that is visible at `later`. Every task that it held when it
/// was archived is among them as it was, with its name and its time, where
/// the store holds the row of the task and the task is visible at `later`.
pub proof fn lemma_archive_restore_round_trip(s: EngineView, project_id: u64, now: u64, later: u64)
    requires
        s.wf(),
        project_index(s.projects, project_id) is Some,
        s.store.project_row(project_id) is Some,
    ensures
        ({
            let pos = project_index(s.projects, project_id).unwrap();
            let row = s.store.project_row(project_id).unwrap();
            let archived = s.remove_project(project_id, now);
            let restored = archived.restore_project(project_id, later);
            let back = restored.projects.last();
            &&& archived.projects == s.projects.remove(pos)
            &&& project_index(archived.projects, project_id) is None
            &&& archived.store.project_row(project_id) == Some(
                ProjectRow { archived_at: Some(now), ..row },
            )
            &&& exists|k: int|
                0 <= k < archived.store.all_projects_with_status().len() && (
                #[trigger] archived.store.all_projects_with_status()[k]).id == project_id
                    && archived.store.all_projects_with_status()[k].archived_at == Some(now)
            &&& restored.wf()
            &&& restored.store.project_row(project_id) == Some(
                ProjectRow { archived_at: None, ..row },
            )
            &&& forall|i: int|
                0 <= i < restored.store.tasks.len() && (
                #[trigger] restored.store.tasks[i]).task.project_id == project_id
                    ==> restored.store.tasks[i].task.archived_at is None
            &&& restored.projects == archived.projects.push(back)
            &&& project_index(restored.projects, project_id) == Some(restored.projects.len() - 1)
            &&& back.id == project_id
            &&& back.name == s.projects[pos].name
            &&& back.archived_at is None
            &&& forall|j: int, r: int|
                0 <= j < s.projects[pos].tasks.len() && 0 <= r < s.store.tasks.len() && (
                #[trigger] s.store.tasks[r]).task.id == (#[trigger] s.projects[pos].tasks[j]).id
                    && s.projects[pos].tasks[j].visible_at(later) ==> back.tasks.contains(
                    s.projects[pos].tasks[j],
                )
            &&& back.tasks == tasks_of(
                restored.store.tasks.filter(task_row_visible(project_id, later)),
            )
        }),
{
    let p = project_row_has_id(project_id);
    let row = s.store.project_row(project_id).unwrap();
    lemma_first_match_is_first(s.store.projects, p);
    lemma_first_match_is_first(s.projects, project_has_id(project_id));
    let pos = project_index(s.projects, project_id).unwrap();
    let i = first_match(s.store.projects, p).unwrap();
    let archived = s.remove_project(project_id, now);
    lemma_remove_project_keeps_wf(s, project_id, now);
    assert forall|j: int| 0 <= j < archived.projects.len() implies !#[trigger] project_has_id(
        project_id,
    )(archived.projects[j]) by {
        if j < pos {
            assert(s.projects[j].id != s.projects[pos].id);
        } else {
            assert(s.projects[pos].id != s.projects[j + 1].id);
        }
    }
    lemma_first_match_none(archived.projects, project_has_id(project_id));
    let s0 = sessions_dropped(s.store, s.sessions, project_id);
    lemma_sessions_dropped_keeps_rows(s.store, s.sessions, project_id);
    let stamp = ProjectChange::Archived(Some(now));
    lemma_project_row_after_update(s.store.projects, project_id, stamp);
    assert(archived.store.projects == project_rows_updated(s.store.projects, project_id, stamp));
    assert(archived.store.project_row(project_id) == Some(
        ProjectRow { archived_at: Some(now), ..row },
    ));
    lemma_row_appears_with_status(archived.store, i);
    let shown = status_project(archived.store.tasks, archived.store.projects[i]);
    let all = archived.store.all_projects_with_status();
    let k = choose|k: int| 0 <= k < all.len() && all[k] == shown;
    assert(all[k].id == project_id && all[k].archived_at == Some(now));
    let restored = archived.restore_project(project_id, later);
    lemma_restore_project_keeps_wf(archived, project_id, later);
    let clear = ProjectChange::Archived(None);
    lemma_project_row_after_update(archived.store.projects, project_id, clear);
    assert(restored.store.projects == project_rows_updated(
        archived.store.projects,
        project_id,
        clear,
    ));
    assert(restored.store.project_row(project_id) == Some(ProjectRow { archived_at: None, ..row }));
    assert(restored.store.tasks == task_rows_archived(archived.store.tasks, project_id, None));
    let last = restored.projects.len() - 1;
    assert(project_has_id(project_id)(restored.projects[last]));
    assert forall|j: int| 0 <= j < last implies !#[trigger] project_has_id(project_id)(
        restored.projects[j],
    ) by {
        assert(!project_has_id(project_id)(archived.projects[j]));
    }
    lemma_first_match_found(restored.projects, project_has_id(project_id), last);
    reveal(names_mirror);
    reveal(rows_mirror);
    reveal(owners_agree);
    assert(s.store.projects[i].name == s.projects[pos].name);
    let back = restored.projects.last();
    let rows = restored.store.tasks;
    let pred = task_row_visible(project_id, later);
    lemma_filter_members(rows, pred);
    assert forall|j: int, r: int|
        0 <= j < s.projects[pos].tasks.len() && 0 <= r < s.store.tasks.len() && (
        #[trigger] s.store.tasks[r]).task.id == (#[trigger] s.projects[pos].tasks[j]).id
            && s.projects[pos].tasks[j].visible_at(later) implies back.tasks.contains(
        s.projects[pos].tasks[j],
    ) by {
        let t = s.projects[pos].tasks[j];
        assert(s.store.tasks[r].task == t);
        assert(s.store.tasks[r].task.project_id == project_id);
        assert(archived.store.tasks[r].task.project_id == project_id);
        assert(rows[r].task == t);
        assert(pred(rows[r]));
        assert(rows.contains(rows[r]));
        assert(rows.filter(pred).contains(rows[r]));
        let l = choose|l: int| 0 <= l < rows.filter(pred).len() && rows.filter(pred)[l] == rows[r];
        assert(back.tasks[l] == t);
    }
}

} // verus!

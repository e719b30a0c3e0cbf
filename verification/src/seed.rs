//! Filling an engine with sample projects whose tasks carry a month of
//! committed time.

use vstd::prelude::*;
use crate::engine::{Engine, EngineView};
use crate::model::{projects_view, Project, ProjectView, Task};
use crate::store::{StoreView, StoreWrite};
use crate::validity::{lemma_store_write_keeps_wf, lemma_task_added_keeps_wf};

verus! {

/// The number of spans in the template of sample time.
pub const SEED_SPANS: usize = 28;

/// One span of sample time: it starts `days_ago` days before today, at
/// `hour` o'clock, and lasts `minutes` minutes.
#[derive(Clone, Copy, Debug, PartialEq, Eq, Structural)]
pub struct SeedSpan {
    pub days_ago: u64,
    pub hour: u64,
    pub minutes: u64,
}

/// A project to fill an engine with: its name and the names of its tasks.
#[derive(Debug, PartialEq, Eq)]
pub struct SeedProject {
    pub name: String,
    pub tasks: Vec<String>,
}

/// The mathematical value of a `SeedProject`.
#[verifier::ext_equal]
pub struct SeedProjectView {
    pub name: String,
    pub tasks: Seq<String>,
}

impl View for SeedProject {
    type V = SeedProjectView;

    open spec fn view(&self) -> SeedProjectView {
        SeedProjectView { name: self.name, tasks: self.tasks@ }
    }
}

/// The values of a list of projects to fill an engine with.
pub open spec fn seeds_view(s: Seq<SeedProject>) -> Seq<SeedProjectView> {
    s.map_values(|p: SeedProject| p@)
}

/// Span `i` of the template, for `i` below `SEED_SPANS`.
pub open spec fn seed_span(i: int) -> SeedSpan {
    if i == 0 {
        SeedSpan { days_ago: 0, hour: 9, minutes: 45 }
    } else if i == 1 {
        SeedSpan { days_ago: 0, hour: 14, minutes: 30 }
    } else if i == 2 {
        SeedSpan { days_ago: 0, hour: 16, minutes: 20 }
    } else if i == 3 {
        SeedSpan { days_ago: 1, hour: 10, minutes: 60 }
    } else if i == 4 {
        SeedSpan { days_ago: 1, hour: 15, minutes: 25 }
    } else if i == 5 {
        SeedSpan { days_ago: 2, hour: 9, minutes: 50 }
    } else if i == 6 {
        SeedSpan { days_ago: 2, hour: 11, minutes: 40 }
    } else if i == 7 {
        SeedSpan { days_ago: 2, hour: 14, minutes: 35 }
    } else if i == 8 {
        SeedSpan { days_ago: 3, hour: 10, minutes: 55 }
    } else if i == 9 {
        SeedSpan { days_ago: 3, hour: 13, minutes: 30 }
    } else if i == 10 {
        SeedSpan { days_ago: 3, hour: 16, minutes: 20 }
    } else if i == 11 {
        SeedSpan { days_ago: 4, hour: 9, minutes: 45 }
    } else if i == 12 {
        SeedSpan { days_ago: 4, hour: 11, minutes: 30 }
    } else if i == 13 {
        SeedSpan { days_ago: 5, hour: 14, minutes: 60 }
    } else if i == 14 {
        SeedSpan { days_ago: 5, hour: 16, minutes: 25 }
    } else if i == 15 {
        SeedSpan { days_ago: 6, hour: 10, minutes: 40 }
    } else if i == 16 {
        SeedSpan { days_ago: 6, hour: 15, minutes: 50 }
    } else if i == 17 {
        SeedSpan { days_ago: 7, hour: 9, minutes: 35 }
    } else if i == 18 {
        SeedSpan { days_ago: 7, hour: 11, minutes: 45 }
    } else if i == 19 {
        SeedSpan { days_ago: 7, hour: 14, minutes: 30 }
    } else if i == 20 {
        SeedSpan { days_ago: 10, hour: 10, minutes: 50 }
    } else if i == 21 {
        SeedSpan { days_ago: 10, hour: 15, minutes: 40 }
    } else if i == 22 {
        SeedSpan { days_ago: 14, hour: 9, minutes: 60 }
    } else if i == 23 {
        SeedSpan { days_ago: 14, hour: 14, minutes: 45 }
    } else if i == 24 {
        SeedSpan { days_ago: 21, hour: 10, minutes: 55 }
    } else if i == 25 {
        SeedSpan { days_ago: 21, hour: 16, minutes: 35 }
    } else if i == 26 {
        SeedSpan { days_ago: 30, hour: 11, minutes: 45 }
    } else {
        SeedSpan { days_ago: 30, hour: 15, minutes: 30 }
    }
}

/// Task number `counter` takes span `i` of the template: every task leaves
/// out a third of the spans, and which third changes from task to task.
pub open spec fn span_taken(i: int, counter: nat) -> bool {
    (seed_span(i).days_ago + counter % 5) % 3 != 0
}

/// Two numbers of tasks that leave the same rest when divided by 5 take the
/// same spans.
pub proof fn lemma_same_phase(a: nat, b: nat, upto: nat)
    requires
        a % 5 == b % 5,
    ensures
        seed_total(a, upto) == seed_total(b, upto),
        forall|i: int| span_taken(i, a) == span_taken(i, b),
    decreases upto,
{
    if upto > 0 {
        lemma_same_phase(a, b, (upto - 1) as nat);
    }
}

/// Two numbers of tasks that leave the same rest when divided by 5 enter the
/// same spans in the ledger.
pub proof fn lemma_same_phase_entered(
    store: StoreView,
    project_id: u64,
    task_id: u64,
    a: nat,
    b: nat,
    now: u64,
    upto: nat,
)
    requires
        a % 5 == b % 5,
    ensures
        spans_entered(store, project_id, task_id, a, now, upto) == spans_entered(
            store,
            project_id,
            task_id,
            b,
            now,
            upto,
        ),
    decreases upto,
{
    if upto > 0 {
        lemma_same_phase_entered(store, project_id, task_id, a, b, now, (upto - 1) as nat);
        lemma_same_phase(a, b, 0);
    }
}

/// The seconds of the spans below `upto` that task number `counter` takes.
pub open spec fn seed_total(counter: nat, upto: nat) -> int
    decreases upto,
{
    if upto == 0 {
        0
    } else {
        seed_total(counter, (upto - 1) as nat) + if span_taken(upto - 1, counter) {
            seed_span(upto - 1).minutes * 60
        } else {
            0
        }
    }
}

/// The second at which the day of `now` starts in universal time.
pub open spec fn day_start(now: u64) -> u64 {
    ((now / 86400) * 86400) as u64
}

/// The second at which a span starts: its hour on its day, counted back from
/// the day of `now`. A day before the epoch counts as its first day, and a
/// second beyond the largest number as the largest number.
pub open spec fn span_start(span: SeedSpan, now: u64) -> u64 {
    let back = span.days_ago * 86400;
    let day = if day_start(now) >= back {
        day_start(now) - back
    } else {
        0
    };
    if day + span.hour * 3600 <= u64::MAX {
        (day + span.hour * 3600) as u64
    } else {
        u64::MAX
    }
}

/// The second at which a span ends.
pub open spec fn span_end(span: SeedSpan, now: u64) -> u64 {
    if span_start(span, now) + span.minutes * 60 <= u64::MAX {
        (span_start(span, now) + span.minutes * 60) as u64
    } else {
        u64::MAX
    }
}

/// The store after the spans below `upto` that a task takes were entered in
/// the ledger.
pub open spec fn spans_entered(
    store: StoreView,
    project_id: u64,
    task_id: u64,
    counter: nat,
    now: u64,
    upto: nat,
) -> StoreView
    decreases upto,
{
    if upto == 0 {
        store
    } else {
        let before = spans_entered(store, project_id, task_id, counter, now, (upto - 1) as nat);
        let span = seed_span(upto - 1);
        if span_taken(upto - 1, counter) {
            before.apply(
                StoreWrite::InsertTimeEntry {
                    project_id,
                    task_id,
                    start_time: span_start(span, now),
                    end_time: span_end(span, now),
                    duration_seconds: (span.minutes * 60) as u64,
                },
            )
        } else {
            before
        }
    }
}

impl EngineView {
    /// The state after a sample task was added to the last project, under
    /// the next task id, as task number `counter`: it carries the seconds of
    /// the spans that it takes, and the ledger an entry for each. Where the
    /// ids have run out, nothing changes.
    pub open spec fn seed_task(self, name: String, counter: nat, now: u64) -> EngineView {
        if self.next_task_id == u64::MAX || self.projects.len() == 0 {
            self
        } else {
            let pi = self.projects.len() - 1;
            let p = self.projects[pi];
            let id = self.next_task_id;
            let total = seed_total(counter, SEED_SPANS as nat) as u64;
            EngineView {
                projects: self.projects.update(
                    pi,
                    ProjectView {
                        tasks: p.tasks.push(
                            Task {
                                id,
                                project_id: p.id,
                                name,
                                time_seconds: total,
                                done_at: None,
                                archived_at: None,
                            },
                        ),
                        ..p
                    },
                ),
                store: spans_entered(
                    self.store.apply(
                        StoreWrite::InsertTask {
                            id,
                            project_id: p.id,
                            name,
                            time_seconds: total,
                        },
                    ),
                    p.id,
                    id,
                    counter,
                    now,
                    SEED_SPANS as nat,
                ),
                next_task_id: (id + 1) as u64,
                ..self
            }
        }
    }

    /// The state after sample tasks with these names were added to the last
    /// project, the first of them as task number `counter`.
    pub open spec fn seed_tasks(self, names: Seq<String>, counter: nat, now: u64) -> EngineView
        decreases names.len(),
    {
        if names.len() == 0 {
            self
        } else {
            self.seed_tasks(names.drop_last(), counter, now).seed_task(
                names.last(),
                (counter + names.len() - 1) as nat,
                now,
            )
        }
    }

    /// The state after a sample project was added with its tasks, the first
    /// of them as task number `counter`. Where the project ids have run out,
    /// nothing changes.
    pub open spec fn seed_project(self, project: SeedProjectView, counter: nat, now: u64) -> EngineView {
        if self.next_project_id == u64::MAX {
            self
        } else {
            self.add_project(project.name).seed_tasks(project.tasks, counter, now)
        }
    }

    /// The state after these sample projects were added, one after the
    /// other; the tasks are numbered through from `counter`.
    pub open spec fn seed(self, projects: Seq<SeedProjectView>, counter: nat, now: u64) -> EngineView
        decreases projects.len(),
    {
        if projects.len() == 0 {
            self
        } else {
            self.seed(projects.drop_last(), counter, now).seed_project(
                projects.last(),
                counter + tasks_before(projects.drop_last()),
                now,
            )
        }
    }
}

/// Two numbers of tasks that leave the same rest when divided by 5 make the
/// same sample task.
pub proof fn lemma_seed_task_phase(s: EngineView, name: String, a: nat, b: nat, now: u64)
    requires
        a % 5 == b % 5,
    ensures
        s.seed_task(name, a, now) == s.seed_task(name, b, now),
{
    lemma_same_phase(a, b, SEED_SPANS as nat);
    if !(s.next_task_id == u64::MAX || s.projects.len() == 0) {
        let pi = s.projects.len() - 1;
        let p = s.projects[pi];
        let total = seed_total(a, SEED_SPANS as nat) as u64;
        let w = StoreWrite::InsertTask {
            id: s.next_task_id,
            project_id: p.id,
            name,
            time_seconds: total,
        };
        lemma_same_phase_entered(
            s.store.apply(w),
            p.id,
            s.next_task_id,
            a,
            b,
            now,
            SEED_SPANS as nat,
        );
    }
}

/// The number of tasks of a list of sample projects.
pub open spec fn tasks_before(projects: Seq<SeedProjectView>) -> nat
    decreases projects.len(),
{
    if projects.len() == 0 {
        0
    } else {
        tasks_before(projects.drop_last()) + projects.last().tasks.len()
    }
}

/// The sample data: three projects named `Work`, `Personal` and `Learning`,
/// with four, four and three tasks.
pub open spec fn is_mock_data(data: Seq<SeedProjectView>) -> bool {
    &&& data.len() == 3
    &&& data[0].name@ == "Work"@
    &&& data[0].tasks.len() == 4
    &&& data[0].tasks[0]@ == "Code review"@
    &&& data[0].tasks[1]@ == "Write documentation"@
    &&& data[0].tasks[2]@ == "Fix bugs"@
    &&& data[0].tasks[3]@ == "Team meeting"@
    &&& data[1].name@ == "Personal"@
    &&& data[1].tasks.len() == 4
    &&& data[1].tasks[0]@ == "Exercise"@
    &&& data[1].tasks[1]@ == "Read book"@
    &&& data[1].tasks[2]@ == "Learn Rust"@
    &&& data[1].tasks[3]@ == "Side project"@
    &&& data[2].name@ == "Learning"@
    &&& data[2].tasks.len() == 3
    &&& data[2].tasks[0]@ == "Online course"@
    &&& data[2].tasks[1]@ == "Practice coding"@
    &&& data[2].tasks[2]@ == "Watch tutorials"@
}

/// Span `i` of the template.
pub fn span_at(i: usize) -> (span: SeedSpan)
    requires
        i < SEED_SPANS,
    ensures
        span == seed_span(i as int),
        span.days_ago <= 30,
        span.hour <= 23,
        span.minutes <= 60,
{
    if i == 0 {
        SeedSpan { days_ago: 0, hour: 9, minutes: 45 }
    } else if i == 1 {
        SeedSpan { days_ago: 0, hour: 14, minutes: 30 }
    } else if i == 2 {
        SeedSpan { days_ago: 0, hour: 16, minutes: 20 }
    } else if i == 3 {
        SeedSpan { days_ago: 1, hour: 10, minutes: 60 }
    } else if i == 4 {
        SeedSpan { days_ago: 1, hour: 15, minutes: 25 }
    } else if i == 5 {
        SeedSpan { days_ago: 2, hour: 9, minutes: 50 }
    } else if i == 6 {
        SeedSpan { days_ago: 2, hour: 11, minutes: 40 }
    } else if i == 7 {
        SeedSpan { days_ago: 2, hour: 14, minutes: 35 }
    } else if i == 8 {
        SeedSpan { days_ago: 3, hour: 10, minutes: 55 }
    } else if i == 9 {
        SeedSpan { days_ago: 3, hour: 13, minutes: 30 }
    } else if i == 10 {
        SeedSpan { days_ago: 3, hour: 16, minutes: 20 }
    } else if i == 11 {
        SeedSpan { days_ago: 4, hour: 9, minutes: 45 }
    } else if i == 12 {
        SeedSpan { days_ago: 4, hour: 11, minutes: 30 }
    } else if i == 13 {
        SeedSpan { days_ago: 5, hour: 14, minutes: 60 }
    } else if i == 14 {
        SeedSpan { days_ago: 5, hour: 16, minutes: 25 }
    } else if i == 15 {
        SeedSpan { days_ago: 6, hour: 10, minutes: 40 }
    } else if i == 16 {
        SeedSpan { days_ago: 6, hour: 15, minutes: 50 }
    } else if i == 17 {
        SeedSpan { days_ago: 7, hour: 9, minutes: 35 }
    } else if i == 18 {
        SeedSpan { days_ago: 7, hour: 11, minutes: 45 }
    } else if i == 19 {
        SeedSpan { days_ago: 7, hour: 14, minutes: 30 }
    } else if i == 20 {
        SeedSpan { days_ago: 10, hour: 10, minutes: 50 }
    } else if i == 21 {
        SeedSpan { days_ago: 10, hour: 15, minutes: 40 }
    } else if i == 22 {
        SeedSpan { days_ago: 14, hour: 9, minutes: 60 }
    } else if i == 23 {
        SeedSpan { days_ago: 14, hour: 14, minutes: 45 }
    } else if i == 24 {
        SeedSpan { days_ago: 21, hour: 10, minutes: 55 }
    } else if i == 25 {
        SeedSpan { days_ago: 21, hour: 16, minutes: 35 }
    } else if i == 26 {
        SeedSpan { days_ago: 30, hour: 11, minutes: 45 }
    } else {
        SeedSpan { days_ago: 30, hour: 15, minutes: 30 }
    }
}

/// Decides whether task number `counter` takes span `i`.
pub fn takes_span(i: usize, counter: usize) -> (b: bool)
    requires
        i < SEED_SPANS,
    ensures
        b == span_taken(i as int, counter as nat),
{
    (span_at(i).days_ago + (counter % 5) as u64) % 3 != 0
}

/// The seconds of the spans that task number `counter` takes.
pub fn seed_seconds(counter: usize) -> (total: u64)
    ensures
        total == seed_total(counter as nat, SEED_SPANS as nat),
{
    let mut total: u64 = 0;
    let mut i: usize = 0;
    while i < SEED_SPANS
        invariant
            i <= SEED_SPANS,
            total == seed_total(counter as nat, i as nat),
            total <= i * 3600,
        decreases SEED_SPANS - i,
    {
        if takes_span(i, counter) {
            total = total + span_at(i).minutes * 60;
        }
        i += 1;
    }
    total
}

/// The sample data.
pub fn mock_projects() -> (data: Vec<SeedProject>)
    ensures
        is_mock_data(seeds_view(data@)),
{
    let mut work: Vec<String> = Vec::new();
    work.push("Code review".to_owned());
    work.push("Write documentation".to_owned());
    work.push("Fix bugs".to_owned());
    work.push("Team meeting".to_owned());
    let mut personal: Vec<String> = Vec::new();
    personal.push("Exercise".to_owned());
    personal.push("Read book".to_owned());
    personal.push("Learn Rust".to_owned());
    personal.push("Side project".to_owned());
    let mut learning: Vec<String> = Vec::new();
    learning.push("Online course".to_owned());
    learning.push("Practice coding".to_owned());
    learning.push("Watch tutorials".to_owned());
    let mut data: Vec<SeedProject> = Vec::new();
    data.push(SeedProject { name: "Work".to_owned(), tasks: work });
    data.push(SeedProject { name: "Personal".to_owned(), tasks: personal });
    data.push(SeedProject { name: "Learning".to_owned(), tasks: learning });
    data
}

impl Engine {
    /// Enters in the ledger the spans that a sample task takes.
    fn enter_spans(&mut self, project_id: u64, task_id: u64, counter: usize, now: u64)
        requires
            old(self)@.wf(),
        ensures
            final(self)@ == (EngineView {
                store: spans_entered(
                    old(self)@.store,
                    project_id,
                    task_id,
                    counter as nat,
                    now,
                    SEED_SPANS as nat,
                ),
                ..old(self)@
            }),
            final(self)@.wf(),
    {
        let today: u64 = (now / 86400) * 86400;
        let mut i: usize = 0;
        while i < SEED_SPANS
            invariant
                i <= SEED_SPANS,
                today == day_start(now),
                self@.wf(),
                self@ == (EngineView {
                    store: spans_entered(
                        old(self)@.store,
                        project_id,
                        task_id,
                        counter as nat,
                        now,
                        i as nat,
                    ),
                    ..old(self)@
                }),
            decreases SEED_SPANS - i,
        {
            if takes_span(i, counter) {
                let span = span_at(i);
                let day = today.saturating_sub(span.days_ago * 86400);
                let start = day.saturating_add(span.hour * 3600);
                let end = start.saturating_add(span.minutes * 60);
                let w = StoreWrite::InsertTimeEntry {
                    project_id,
                    task_id,
                    start_time: start,
                    end_time: end,
                    duration_seconds: span.minutes * 60,
                };
                proof {
                    lemma_store_write_keeps_wf(self@, w);
                }
                self.store.apply(w);
            }
            i += 1;
        }
    }

    /// Adds a sample task to the last project, as task number `counter`.
    fn seed_task(&mut self, name: String, counter: usize, now: u64)
        requires
            old(self)@.wf(),
        ensures
            final(self)@ == old(self)@.seed_task(name, counter as nat, now),
            final(self)@.wf(),
            final(self)@.projects.len() == old(self)@.projects.len(),
    {
        if self.next_task_id == u64::MAX || self.projects.len() == 0 {
            return ;
        }
        let ghost before = self@;
        let pi = self.projects.len() - 1;
        let id = self.next_task_id;
        let project_id = self.projects[pi].id;
        let total = seed_seconds(counter);
        self.store.insert_task(id, project_id, name.clone(), total);
        let t = Task { id, project_id, name, time_seconds: total, done_at: None, archived_at: None };
        proof {
            lemma_task_added_keeps_wf(before, pi as int, t, total);
        }
        self.projects[pi].tasks.push(t);
        self.next_task_id = id + 1;
        proof {
            let old_p = before.projects[pi as int];
            assert(projects_view(self.projects@) =~= before.projects.update(
                pi as int,
                ProjectView { tasks: old_p.tasks.push(t), ..old_p },
            ));
        }
        self.enter_spans(project_id, id, counter, now);
    }

    /// Adds a sample project with its tasks. The number of the first task
    /// leaves the rest `phase` when divided by 5; the number of the task
    /// behind the last one is returned in the same way.
    fn seed_project(&mut self, project: &SeedProject, phase: usize, counter: Ghost<nat>, now: u64) -> (next: usize)
        requires
            old(self)@.wf(),
            phase == counter@ % 5,
        ensures
            final(self)@ == old(self)@.seed_project(project@, counter@, now),
            final(self)@.wf(),
            next == (counter@ + project.tasks@.len()) % 5,
    {
        let mut phase = phase;
        if self.next_project_id == u64::MAX {
            let n = project.tasks.len();
            return (phase + n % 5) % 5;
        }
        self.add_project(project.name.clone());
        let ghost added = self@;
        let mut i: usize = 0;
        while i < project.tasks.len()
            invariant
                i <= project.tasks.len(),
                phase == (counter@ + i) % 5,
                self@.wf(),
                self@ == added.seed_tasks(project.tasks@.take(i as int), counter@, now),
            decreases project.tasks.len() - i,
        {
            proof {
                assert(project.tasks@.take(i + 1).drop_last() =~= project.tasks@.take(i as int));
                lemma_seed_task_phase(
                    self@,
                    project.tasks@[i as int],
                    phase as nat,
                    (counter@ + i) as nat,
                    now,
                );
            }
            self.seed_task(project.tasks[i].clone(), phase, now);
            phase = (phase + 1) % 5;
            i += 1;
        }
        assert(project.tasks@.take(project.tasks.len() as int) =~= project.tasks@);
        phase
    }

    /// Fills the engine with sample projects at `now` and returns the
    /// projects in rotation.
    ///
    /// Each project is added under the next project id, each of its tasks
    /// under the next task id. Every task takes two thirds of the spans of
    /// the template of sample time: it carries their seconds, and the ledger
    /// holds an entry for each.
    pub fn seed(&mut self, projects: &Vec<SeedProject>, now: u64) -> (r: Vec<Project>)
        requires
            old(self)@.wf(),
        ensures
            final(self)@ == old(self)@.seed(seeds_view(projects@), 0, now),
            final(self)@.wf(),
            projects_view(r@) == final(self)@.projects,
    {
        let ghost all = seeds_view(projects@);
        let mut phase: usize = 0;
        let mut i: usize = 0;
        while i < projects.len()
            invariant
                i <= projects.len(),
                all == seeds_view(projects@),
                phase == tasks_before(all.take(i as int)) % 5,
                self@.wf(),
                self@ == old(self)@.seed(all.take(i as int), 0, now),
            decreases projects.len() - i,
        {
            proof {
                assert(all.take(i + 1).drop_last() =~= all.take(i as int));
                assert(all.take(i + 1).last() == projects@[i as int]@);
            }
            phase = self.seed_project(
                &projects[i],
                phase,
                Ghost(tasks_before(all.take(i as int))),
                now,
            );
            i += 1;
        }
        assert(all.take(projects.len() as int) =~= all);
        self.get_projects()
    }

    /// Fills the engine with the sample data at `now` and returns the
    /// projects in rotation: three projects, `Work`, `Personal` and
    /// `Learning`, with eleven tasks that carry a month of committed time.
    pub fn add_mock_data(&mut self, now: u64) -> (r: Vec<Project>)
        requires
            old(self)@.wf(),
        ensures
            exists|data: Seq<SeedProjectView>|
                #![trigger is_mock_data(data)]
                is_mock_data(data) && final(self)@ == old(self)@.seed(data, 0, now),
            final(self)@.wf(),
            projects_view(r@) == final(self)@.projects,
    {
        let data = mock_projects();
        self.seed(&data, now)
    }
}

} // verus!

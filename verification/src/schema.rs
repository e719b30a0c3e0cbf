//! Bringing a store of any earlier shape up to date, and opening an engine
//! over it.

use vstd::prelude::*;
use crate::engine::{indices_valid, projects_below, Engine, EngineView};
use crate::queries::{
    distinct_sessions, loaded_index, loaded_project, project_row_active, task_row_visible,
};
use crate::seq_util::lemma_filter_members;
use crate::store::{ProjectRow, Store, StoreView, StoreWrite, TaskRow};
use crate::validity::lemma_visible_projects_sound;

verus! {

/// One step that brings the layout of a durable backend up to date.
#[derive(Clone, Copy, Debug, PartialEq, Eq, Structural)]
pub enum SchemaStep {
    /// Creates the projects table where it is missing.
    CreateProjects,
    /// Creates the tasks table where it is missing.
    CreateTasks,
    /// Adds the legacy archive flag to the projects table.
    AddProjectsArchivedFlag,
    /// Adds the legacy archive flag to the tasks table.
    AddTasksArchivedFlag,
    /// Adds the legacy finished flag to the tasks table.
    AddTasksDoneFlag,
    /// Adds the finished-at stamp to the tasks table.
    AddTasksDoneAt,
    /// Adds the archive stamp to the tasks table.
    AddTasksArchivedAt,
    /// Adds the archive stamp to the projects table.
    AddProjectsArchivedAt,
    /// Creates the table of saved positions where it is missing.
    CreateAppState,
    /// Creates the table of running sessions where it is missing.
    CreateActiveTracking,
    /// Creates a table of running sessions that takes any number of rows.
    CreateActiveTrackingCopy,
    /// Copies the running sessions into that table.
    CopyActiveTracking,
    /// Drops the old table of running sessions.
    DropActiveTracking,
    /// Puts the copy in the place of the old table.
    RenameActiveTrackingCopy,
    /// Creates the ledger of time entries where it is missing.
    CreateTimeEntries,
}

/// What to do after a step of the layout was tried.
#[derive(Clone, Copy, Debug, PartialEq, Eq, Structural)]
pub enum SchemaOutcome {
    /// Go on with the next step.
    Continue,
    /// Give up: a table of the layout could not be created.
    Abort,
}

impl SchemaStep {
    /// The step creates a table of the layout where it is missing, and so
    /// cannot fail because something is there already.
    pub open spec fn is_required(self) -> bool {
        self == SchemaStep::CreateProjects || self == SchemaStep::CreateTasks || self
            == SchemaStep::CreateAppState || self == SchemaStep::CreateActiveTracking || self
            == SchemaStep::CreateTimeEntries
    }

    /// What follows from the result of the step: the failure of a step that
    /// adds or moves what may be there already is passed over; the failure to
    /// create a table of the layout ends the run.
    pub open spec fn outcome(self, succeeded: bool) -> SchemaOutcome {
        if !succeeded && self.is_required() {
            SchemaOutcome::Abort
        } else {
            SchemaOutcome::Continue
        }
    }

    /// Decides what follows from the result of the step.
    pub fn on_result(&self, succeeded: bool) -> (r: SchemaOutcome)
        ensures
            r == self.outcome(succeeded),
    {
        if succeeded {
            SchemaOutcome::Continue
        } else {
            match self {
                SchemaStep::CreateProjects => SchemaOutcome::Abort,
                SchemaStep::CreateTasks => SchemaOutcome::Abort,
                SchemaStep::CreateAppState => SchemaOutcome::Abort,
                SchemaStep::CreateActiveTracking => SchemaOutcome::Abort,
                SchemaStep::CreateTimeEntries => SchemaOutcome::Abort,
                _ => SchemaOutcome::Continue,
            }
        }
    }
}

/// The steps that bring the layout of a backend of any earlier shape up to
/// date, in the order in which they are tried.
pub open spec fn schema_plan() -> Seq<SchemaStep> {
    seq![
        SchemaStep::CreateProjects,
        SchemaStep::CreateTasks,
        SchemaStep::AddProjectsArchivedFlag,
        SchemaStep::AddTasksArchivedFlag,
        SchemaStep::AddTasksDoneFlag,
        SchemaStep::AddTasksDoneAt,
        SchemaStep::AddTasksArchivedAt,
        SchemaStep::AddProjectsArchivedAt,
        SchemaStep::CreateAppState,
        SchemaStep::CreateActiveTracking,
        SchemaStep::CreateActiveTrackingCopy,
        SchemaStep::CopyActiveTracking,
        SchemaStep::DropActiveTracking,
        SchemaStep::RenameActiveTrackingCopy,
        SchemaStep::CreateTimeEntries,
    ]
}

/// The steps of the layout, in order. Every table is created before a
/// column is added to it, and the running sessions are copied before their
/// old table is dropped.
pub fn schema_steps() -> (r: Vec<SchemaStep>)
    ensures
        r@ == schema_plan(),
{
    let mut r: Vec<SchemaStep> = Vec::new();
    r.push(SchemaStep::CreateProjects);
    r.push(SchemaStep::CreateTasks);
    r.push(SchemaStep::AddProjectsArchivedFlag);
    r.push(SchemaStep::AddTasksArchivedFlag);
    r.push(SchemaStep::AddTasksDoneFlag);
    r.push(SchemaStep::AddTasksDoneAt);
    r.push(SchemaStep::AddTasksArchivedAt);
    r.push(SchemaStep::AddProjectsArchivedAt);
    r.push(SchemaStep::CreateAppState);
    r.push(SchemaStep::CreateActiveTracking);
    r.push(SchemaStep::CreateActiveTrackingCopy);
    r.push(SchemaStep::CopyActiveTracking);
    r.push(SchemaStep::DropActiveTracking);
    r.push(SchemaStep::RenameActiveTrackingCopy);
    r.push(SchemaStep::CreateTimeEntries);
    assert(r@ =~= schema_plan());
    r
}

/// A run of the plan on a backend on which no step fails, or on which only
/// steps fail that add or move what is there already, goes through to the
/// end: it can be repeated on every start.
pub proof fn lemma_plan_survives_what_exists(results: Seq<bool>)
    requires
        results.len() == schema_plan().len(),
        forall|i: int|
            0 <= i < results.len() && (#[trigger] schema_plan()[i]).is_required() ==> results[i],
    ensures
        forall|i: int|
            0 <= i < results.len() ==> (#[trigger] schema_plan()[i]).outcome(results[i])
                == SchemaOutcome::Continue,
{
}

impl StoreView {
    /// The store after its legacy flags were turned into timestamps at `now`.
    pub open spec fn ensure_schema(self, now: u64) -> StoreView {
        self.apply(StoreWrite::MigrateLegacyFlags { now })
    }

    /// No row carries a legacy flag without the timestamp that replaces it.
    pub open spec fn migrated(self) -> bool {
        &&& forall|i: int|
            0 <= i < self.projects.len() && (#[trigger] self.projects[i]).legacy_archived
                ==> self.projects[i].archived_at is Some
        &&& forall|i: int|
            0 <= i < self.tasks.len() && (#[trigger] self.tasks[i]).legacy_done
                ==> self.tasks[i].task.done_at is Some
        &&& forall|i: int|
            0 <= i < self.tasks.len() && (#[trigger] self.tasks[i]).legacy_archived
                ==> self.tasks[i].task.archived_at is Some
    }
}

/// Bringing a store up to date converts every legacy flag and touches
/// nothing else: afterwards no flag stands without its timestamp, a
/// timestamp that was there is the one that is there, and a row without a
/// flag is the row it was.
pub proof fn lemma_ensure_schema_converts(s: StoreView, now: u64)
    ensures
        s.ensure_schema(now).migrated(),
        s.ensure_schema(now).projects.len() == s.projects.len(),
        s.ensure_schema(now).tasks.len() == s.tasks.len(),
        forall|i: int|
            0 <= i < s.projects.len() && (#[trigger] s.projects[i]).archived_at is Some
                ==> s.ensure_schema(now).projects[i] == s.projects[i],
        forall|i: int|
            0 <= i < s.projects.len() && !(#[trigger] s.projects[i]).legacy_archived
                ==> s.ensure_schema(now).projects[i] == s.projects[i],
        forall|i: int|
            0 <= i < s.tasks.len() && (#[trigger] s.tasks[i]).task.done_at is Some
                && s.tasks[i].task.archived_at is Some ==> s.ensure_schema(now).tasks[i]
                == s.tasks[i],
        forall|i: int|
            0 <= i < s.tasks.len() && !(#[trigger] s.tasks[i]).legacy_done
                && !s.tasks[i].legacy_archived ==> s.ensure_schema(now).tasks[i] == s.tasks[i],
        s.ensure_schema(now).sessions == s.sessions,
        s.ensure_schema(now).entries == s.entries,
        s.ensure_schema(now).current_project_index == s.current_project_index,
{
}

/// Bringing a store up to date a second time changes no table, whatever the
/// time of the second run: no timestamp is stamped twice.
pub proof fn lemma_ensure_schema_idempotent(s: StoreView, first: u64, second: u64)
    ensures
        s.ensure_schema(first).ensure_schema(second).same_tables(s.ensure_schema(first)),
{
    let once = s.ensure_schema(first);
    let twice = once.ensure_schema(second);
    assert(twice.projects =~= once.projects);
    assert(twice.tasks =~= once.tasks);
}

/// A store that holds no legacy flag without its timestamp is left as it is.
pub proof fn lemma_ensure_schema_fixpoint(s: StoreView, now: u64)
    requires
        s.migrated(),
    ensures
        s.ensure_schema(now).same_tables(s),
{
    let once = s.ensure_schema(now);
    assert(once.projects =~= s.projects);
    assert(once.tasks =~= s.tasks);
}

/// In a store that keeps its order, every row id is below the id that the
/// next row receives.
pub proof fn lemma_ids_below_next(s: StoreView)
    requires
        s.wf(),
    ensures
        s.ids_below(s.next_project_id(), s.next_task_id()),
{
    assert forall|i: int| 0 <= i < s.projects.len() implies (#[trigger] s.projects[i]).id
        < s.next_project_id() by {
        if i < s.projects.len() - 1 {
            assert(s.projects[i].id < s.projects[s.projects.len() - 1].id);
        }
        assert(s.projects[s.projects.len() - 1].id < u64::MAX);
    }
    assert forall|i: int| 0 <= i < s.tasks.len() implies (#[trigger] s.tasks[i]).task.id
        < s.next_task_id() by {
        if i < s.tasks.len() - 1 {
            assert(s.tasks[i].task.id < s.tasks[s.tasks.len() - 1].task.id);
        }
        assert(s.tasks[s.tasks.len() - 1].task.id < u64::MAX);
    }
}

/// A project that enters the rotation from a row has a valid task position
/// and only tasks of the store.
pub proof fn lemma_loaded_project_below(tasks: Seq<TaskRow>, row: ProjectRow, now: u64, nt: u64)
    requires
        forall|i: int| 0 <= i < tasks.len() ==> (#[trigger] tasks[i]).task.id < nt,
    ensures
        loaded_project(tasks, row, now).index_valid(),
        forall|j: int|
            0 <= j < loaded_project(tasks, row, now).tasks.len() ==> (#[trigger] loaded_project(
                tasks,
                row,
                now,
            ).tasks[j]).id < nt,
{
    let p = loaded_project(tasks, row, now);
    let f = tasks.filter(task_row_visible(row.id, now));
    lemma_filter_members(tasks, task_row_visible(row.id, now));
    assert forall|j: int| 0 <= j < p.tasks.len() implies (#[trigger] p.tasks[j]).id < nt by {
        assert(f.contains(f[j]));
        assert(tasks.contains(f[j]));
        let k = choose|k: int| 0 <= k < tasks.len() && tasks[k] == f[j];
        assert(tasks[k].task.id < nt);
    }
}

/// The projects that a store gives to the rotation have valid task
/// positions and ids below the counters that bound the rows of the store.
pub proof fn lemma_visible_projects_below(s: StoreView, now: u64, np: u64, nt: u64)
    requires
        s.ids_below(np, nt),
    ensures
        indices_valid(s.visible_projects(now)),
        projects_below(s.visible_projects(now), np, nt),
{
    let rows = s.projects.filter(project_row_active());
    let ps = s.visible_projects(now);
    lemma_filter_members(s.projects, project_row_active());
    assert forall|i: int| 0 <= i < ps.len() implies (#[trigger] ps[i]).index_valid() by {
        lemma_loaded_project_below(s.tasks, rows[i], now, nt);
    }
    assert forall|i: int| 0 <= i < ps.len() implies (#[trigger] ps[i]).id < np by {
        assert(rows.contains(rows[i]));
        assert(s.projects.contains(rows[i]));
        let k = choose|k: int| 0 <= k < s.projects.len() && s.projects[k] == rows[i];
        assert(s.projects[k].id < np);
    }
    assert forall|i: int, j: int| 0 <= i < ps.len() && 0 <= j < ps[i].tasks.len() implies (
    #[trigger] ps[i].tasks[j]).id < nt by {
        lemma_loaded_project_below(s.tasks, rows[i], now, nt);
    }
}

impl EngineView {
    /// The engine as it opens over a store at `now`.
    ///
    /// The store is brought up to date. The projects that are not archived
    /// enter the rotation with their visible tasks; the saved position of the
    /// current project is kept where it points into the list; each counter
    /// stands one above the largest id of its table; and the sessions of the
    /// store run on, one for each task.
    pub open spec fn opened(store: StoreView, now: u64) -> EngineView {
        let s = store.ensure_schema(now);
        let projects = s.visible_projects(now);
        EngineView {
            store: s,
            projects,
            current_project_index: loaded_index(s.loaded_project_index(), projects.len()),
            next_project_id: s.next_project_id(),
            next_task_id: s.next_task_id(),
            sessions: distinct_sessions(s.sessions),
        }
    }
}

impl Store {
    /// Brings the store up to date: a row that carries a legacy flag and no
    /// timestamp for it is stamped with `now`; every other row stays as it
    /// is. It can be run on every start.
    pub fn ensure_schema(&mut self, now: u64)
        requires
            old(self)@.wf(),
        ensures
            final(self)@ == old(self)@.ensure_schema(now),
            final(self)@.wf(),
            final(self)@.migrated(),
    {
        proof {
            lemma_ensure_schema_converts(self@, now);
        }
        self.apply(StoreWrite::MigrateLegacyFlags { now });
    }
}

impl Engine {
    /// Opens an engine over a store at `now`.
    pub fn open(store: Store, now: u64) -> (e: Engine)
        requires
            store@.wf(),
        ensures
            e@ == EngineView::opened(store@, now),
            e@.wf(),
    {
        let mut store = store;
        store.ensure_schema(now);
        let projects = store.load_visible_projects_with_tasks(now);
        let saved = store.load_current_project_index();
        let current: usize = if saved < projects.len() {
            saved
        } else {
            0
        };
        let next_project_id = store.next_project_id();
        let next_task_id = store.next_task_id();
        let sessions = store.load_active_sessions();
        proof {
            lemma_ids_below_next(store@);
            lemma_visible_projects_below(store@, now, next_project_id, next_task_id);
            lemma_visible_projects_sound(store@, now);
        }
        Engine {
            store,
            projects,
            current_project_index: current,
            next_project_id,
            next_task_id,
            sessions,
        }
    }
}

} // verus!

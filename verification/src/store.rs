//! A model of the durable tables, and the writes that change them.
//!
//! The store mirrors the live state. Every write is applied to the tables
//! held here and recorded in a journal, in the order in which it was made, so
//! that a durable backend can replay it.

use vstd::prelude::*;
use crate::model::{ActiveTracking, Task, TimeEntry};
use crate::tables::{
    archive_task_rows, check_entries, check_project_rows, check_task_rows, entries_without_project,
    entries_without_task, insert_entry, insert_project_row, insert_task_row, migrate_project_rows,
    migrate_task_rows, project_rows_without, sessions_without_task, task_rows_without,
    task_rows_without_project, update_project_rows, update_task_rows,
};

verus! {

/// A row of the projects table.
#[derive(Debug, PartialEq, Eq)]
pub struct ProjectRow {
    pub id: u64,
    pub name: String,
    pub current_task_index: usize,
    pub archived_at: Option<u64>,
    /// The flag that marked an archived project before timestamps did.
    pub legacy_archived: bool,
}

impl Clone for ProjectRow {
    fn clone(&self) -> (r: Self)
        ensures
            r == *self,
    {
        ProjectRow {
            id: self.id,
            name: self.name.clone(),
            current_task_index: self.current_task_index,
            archived_at: self.archived_at,
            legacy_archived: self.legacy_archived,
        }
    }
}

impl ProjectRow {
    /// The row after the legacy flag has been turned into a timestamp: a
    /// flagged row without a timestamp is stamped with `now`.
    pub open spec fn migrated(self, now: u64) -> ProjectRow {
        ProjectRow {
            archived_at: if self.legacy_archived && self.archived_at is None {
                Some(now)
            } else {
                self.archived_at
            },
            ..self
        }
    }
}

/// A row of the tasks table.
#[derive(Debug, PartialEq, Eq)]
pub struct TaskRow {
    pub task: Task,
    /// The flag that marked a finished task before timestamps did.
    pub legacy_done: bool,
    /// The flag that marked an archived task before timestamps did.
    pub legacy_archived: bool,
}

impl Clone for TaskRow {
    fn clone(&self) -> (r: Self)
        ensures
            r == *self,
    {
        TaskRow {
            task: self.task.clone(),
            legacy_done: self.legacy_done,
            legacy_archived: self.legacy_archived,
        }
    }
}

impl TaskRow {
    /// The row after the legacy flags have been turned into timestamps: a
    /// flagged row without the matching timestamp is stamped with `now`.
    pub open spec fn migrated(self, now: u64) -> TaskRow {
        TaskRow {
            task: Task {
                done_at: if self.legacy_done && self.task.done_at is None {
                    Some(now)
                } else {
                    self.task.done_at
                },
                archived_at: if self.legacy_archived && self.task.archived_at is None {
                    Some(now)
                } else {
                    self.task.archived_at
                },
                ..self.task
            },
            ..self
        }
    }
}

/// A change to one column of a task row.
#[derive(Debug, PartialEq, Eq)]
pub enum TaskChange {
    Name(String),
    Time(u64),
    Done(Option<u64>),
    Archived(Option<u64>),
}

impl Clone for TaskChange {
    fn clone(&self) -> (r: Self)
        ensures
            r == *self,
    {
        match self {
            TaskChange::Name(n) => TaskChange::Name(n.clone()),
            TaskChange::Time(t) => TaskChange::Time(*t),
            TaskChange::Done(d) => TaskChange::Done(*d),
            TaskChange::Archived(a) => TaskChange::Archived(*a),
        }
    }
}

impl TaskChange {
    /// The task with the change made.
    pub open spec fn on(self, task: Task) -> Task {
        match self {
            TaskChange::Name(n) => Task { name: n, ..task },
            TaskChange::Time(t) => Task { time_seconds: t, ..task },
            TaskChange::Done(d) => Task { done_at: d, ..task },
            TaskChange::Archived(a) => Task { archived_at: a, ..task },
        }
    }

    /// The row with the change made.
    pub open spec fn applied(self, row: TaskRow) -> TaskRow {
        match self {
            TaskChange::Name(n) => TaskRow { task: Task { name: n, ..row.task }, ..row },
            TaskChange::Time(t) => TaskRow { task: Task { time_seconds: t, ..row.task }, ..row },
            TaskChange::Done(d) => TaskRow { task: Task { done_at: d, ..row.task }, ..row },
            TaskChange::Archived(a) => TaskRow { task: Task { archived_at: a, ..row.task }, ..row },
        }
    }
}

/// A change to one column of a project row.
#[derive(Debug, PartialEq, Eq)]
pub enum ProjectChange {
    Name(String),
    CurrentTaskIndex(usize),
    Archived(Option<u64>),
}

impl Clone for ProjectChange {
    fn clone(&self) -> (r: Self)
        ensures
            r == *self,
    {
        match self {
            ProjectChange::Name(n) => ProjectChange::Name(n.clone()),
            ProjectChange::CurrentTaskIndex(i) => ProjectChange::CurrentTaskIndex(*i),
            ProjectChange::Archived(a) => ProjectChange::Archived(*a),
        }
    }
}

impl ProjectChange {
    /// The row with the change made.
    pub open spec fn applied(self, row: ProjectRow) -> ProjectRow {
        match self {
            ProjectChange::Name(n) => ProjectRow { name: n, ..row },
            ProjectChange::CurrentTaskIndex(i) => ProjectRow { current_task_index: i, ..row },
            ProjectChange::Archived(a) => ProjectRow { archived_at: a, ..row },
        }
    }
}

/// One write to the durable tables.
#[derive(Debug, PartialEq, Eq)]
pub enum StoreWrite {
    /// Adds a project row with no tasks and task position 0.
    InsertProject { id: u64, name: String },
    /// Adds a task row that is neither finished nor archived.
    InsertTask { id: u64, project_id: u64, name: String, time_seconds: u64 },
    /// Changes one column of the task row with this id.
    UpdateTask(u64, TaskChange),
    /// Changes one column of the project row with this id.
    UpdateProject(u64, ProjectChange),
    /// Sets the archive timestamp of every task row of a project.
    SetProjectTasksArchived { project_id: u64, archived_at: Option<u64> },
    /// Removes a project row, its task rows and its time entries.
    DeleteProject { id: u64 },
    /// Removes a task row and its time entries.
    DeleteTask { id: u64 },
    /// Appends a time entry under the next entry id.
    InsertTimeEntry { project_id: u64, task_id: u64, start_time: u64, end_time: u64, duration_seconds: u64 },
    /// Adds a row for a running session.
    AddSession { session: ActiveTracking },
    /// Removes the session rows of a task.
    RemoveSession { task_id: u64 },
    /// Removes every session row.
    ClearSessions,
    /// Records the position of the current project.
    SaveCurrentProjectIndex { index: usize },
    /// Turns legacy flags into timestamps, stamping with `now`.
    MigrateLegacyFlags { now: u64 },
    /// Empties every table.
    Reset,
}

impl Clone for StoreWrite {
    fn clone(&self) -> (r: Self)
        ensures
            r == *self,
    {
        match self {
            StoreWrite::InsertProject { id, name } => StoreWrite::InsertProject {
                id: *id,
                name: name.clone(),
            },
            StoreWrite::InsertTask { id, project_id, name, time_seconds } => StoreWrite::InsertTask {
                id: *id,
                project_id: *project_id,
                name: name.clone(),
                time_seconds: *time_seconds,
            },
            StoreWrite::UpdateTask(id, change) => StoreWrite::UpdateTask(*id, change.clone()),
            StoreWrite::UpdateProject(id, change) => StoreWrite::UpdateProject(*id, change.clone()),
            StoreWrite::SetProjectTasksArchived {
                project_id,
                archived_at,
            } => StoreWrite::SetProjectTasksArchived {
                project_id: *project_id,
                archived_at: *archived_at,
            },
            StoreWrite::DeleteProject { id } => StoreWrite::DeleteProject { id: *id },
            StoreWrite::DeleteTask { id } => StoreWrite::DeleteTask { id: *id },
            StoreWrite::InsertTimeEntry {
                project_id,
                task_id,
                start_time,
                end_time,
                duration_seconds,
            } => StoreWrite::InsertTimeEntry {
                project_id: *project_id,
                task_id: *task_id,
                start_time: *start_time,
                end_time: *end_time,
                duration_seconds: *duration_seconds,
            },
            StoreWrite::AddSession { session } => StoreWrite::AddSession { session: *session },
            StoreWrite::RemoveSession { task_id } => StoreWrite::RemoveSession { task_id: *task_id },
            StoreWrite::ClearSessions => StoreWrite::ClearSessions,
            StoreWrite::SaveCurrentProjectIndex { index } => StoreWrite::SaveCurrentProjectIndex {
                index: *index,
            },
            StoreWrite::MigrateLegacyFlags { now } => StoreWrite::MigrateLegacyFlags { now: *now },
            StoreWrite::Reset => StoreWrite::Reset,
        }
    }
}

/// Project rows stand in strictly increasing order of id, below the largest
/// number.
pub open spec fn project_rows_ordered(s: Seq<ProjectRow>) -> bool {
    &&& forall|i: int, j: int| 0 <= i < j < s.len() ==> s[i].id < s[j].id
    &&& forall|i: int| 0 <= i < s.len() ==> s[i].id < u64::MAX
}

/// Task rows stand in strictly increasing order of id, below the largest
/// number.
pub open spec fn task_rows_ordered(s: Seq<TaskRow>) -> bool {
    &&& forall|i: int, j: int| 0 <= i < j < s.len() ==> s[i].task.id < s[j].task.id
    &&& forall|i: int| 0 <= i < s.len() ==> s[i].task.id < u64::MAX
}

/// Time entries stand in strictly increasing order of id, below the largest
/// number.
pub open spec fn entries_ordered(s: Seq<TimeEntry>) -> bool {
    &&& forall|i: int, j: int| 0 <= i < j < s.len() ==> s[i].id < s[j].id
    &&& forall|i: int| 0 <= i < s.len() ==> s[i].id < u64::MAX
}

/// The id that the next row receives after rows whose largest id is that of
/// `last`: one more, or 1 for an empty table.
pub open spec fn id_after(last: Option<u64>) -> u64 {
    match last {
        None => 1,
        Some(m) => if m < u64::MAX {
            (m + 1) as u64
        } else {
            u64::MAX
        },
    }
}

/// Holds of the project rows whose id is below `id`.
pub open spec fn project_id_below(id: u64) -> spec_fn(ProjectRow) -> bool {
    |r: ProjectRow| r.id < id
}

/// Holds of the project rows whose id is not `id`.
pub open spec fn project_row_is_not(id: u64) -> spec_fn(ProjectRow) -> bool {
    |r: ProjectRow| r.id != id
}

/// Holds of the task rows whose id is below `id`.
pub open spec fn task_id_below(id: u64) -> spec_fn(TaskRow) -> bool {
    |r: TaskRow| r.task.id < id
}

/// Holds of the task rows whose id is not `id`.
pub open spec fn task_row_is_not(id: u64) -> spec_fn(TaskRow) -> bool {
    |r: TaskRow| r.task.id != id
}

/// Holds of the task rows that belong to another project than `project_id`.
pub open spec fn task_row_not_of_project(project_id: u64) -> spec_fn(TaskRow) -> bool {
    |r: TaskRow| r.task.project_id != project_id
}

/// Holds of the time entries that belong to another project than `project_id`.
pub open spec fn entry_not_of_project(project_id: u64) -> spec_fn(TimeEntry) -> bool {
    |e: TimeEntry| e.project_id != project_id
}

/// Holds of the time entries that belong to another task than `task_id`.
pub open spec fn entry_not_of_task(task_id: u64) -> spec_fn(TimeEntry) -> bool {
    |e: TimeEntry| e.task_id != task_id
}

/// Holds of the sessions that run against another task than `task_id`.
pub open spec fn session_not_of_task(task_id: u64) -> spec_fn(ActiveTracking) -> bool {
    |s: ActiveTracking| s.task_id != task_id
}

/// Some project row has this id.
pub open spec fn has_project_row(s: Seq<ProjectRow>, id: u64) -> bool {
    exists|i: int| 0 <= i < s.len() && #[trigger] s[i].id == id
}

/// Some task row has this id.
pub open spec fn has_task_row(s: Seq<TaskRow>, id: u64) -> bool {
    exists|i: int| 0 <= i < s.len() && (#[trigger] s[i]).task.id == id
}

/// A fresh project row: no tasks behind it, task position 0, not archived.
pub open spec fn new_project_row(id: u64, name: String) -> ProjectRow {
    ProjectRow { id, name, current_task_index: 0, archived_at: None, legacy_archived: false }
}

/// A fresh task row: neither finished nor archived.
pub open spec fn new_task_row(id: u64, project_id: u64, name: String, time_seconds: u64) -> TaskRow {
    TaskRow {
        task: Task { id, project_id, name, time_seconds, done_at: None, archived_at: None },
        legacy_done: false,
        legacy_archived: false,
    }
}

/// The project rows after a row was offered. The row is taken where its id
/// is below the largest number and not in use; it then stands behind the
/// rows with a smaller id.
pub open spec fn project_rows_with(s: Seq<ProjectRow>, id: u64, name: String) -> Seq<ProjectRow> {
    if id == u64::MAX || has_project_row(s, id) {
        s
    } else {
        s.insert(s.filter(project_id_below(id)).len() as int, new_project_row(id, name))
    }
}

/// The task rows after a row was offered. The row is taken where its id is
/// below the largest number and not in use; it then stands behind the rows
/// with a smaller id.
pub open spec fn task_rows_with(
    s: Seq<TaskRow>,
    id: u64,
    project_id: u64,
    name: String,
    time_seconds: u64,
) -> Seq<TaskRow> {
    if id == u64::MAX || has_task_row(s, id) {
        s
    } else {
        s.insert(
            s.filter(task_id_below(id)).len() as int,
            new_task_row(id, project_id, name, time_seconds),
        )
    }
}

/// The id of the last entry of the ledger.
pub open spec fn last_entry_id(s: Seq<TimeEntry>) -> Option<u64> {
    if s.len() == 0 {
        None
    } else {
        Some(s.last().id)
    }
}

/// The ledger after a time entry was offered. It is taken under the id after
/// the last one, unless the ids have run out.
pub open spec fn entries_with(
    s: Seq<TimeEntry>,
    project_id: u64,
    task_id: u64,
    start_time: u64,
    end_time: u64,
    duration_seconds: u64,
) -> Seq<TimeEntry> {
    let id = id_after(last_entry_id(s));
    if id == u64::MAX {
        s
    } else {
        s.push(TimeEntry { id, project_id, task_id, start_time, end_time, duration_seconds })
    }
}

/// The project rows after their legacy flags were turned into timestamps.
pub open spec fn project_rows_migrated(s: Seq<ProjectRow>, now: u64) -> Seq<ProjectRow> {
    Seq::new(s.len(), |i: int| s[i].migrated(now))
}

/// The task rows after their legacy flags were turned into timestamps.
pub open spec fn task_rows_migrated(s: Seq<TaskRow>, now: u64) -> Seq<TaskRow> {
    Seq::new(s.len(), |i: int| s[i].migrated(now))
}

/// The project rows with one column of the row `id` changed.
pub open spec fn project_rows_updated(s: Seq<ProjectRow>, id: u64, change: ProjectChange) -> Seq<
    ProjectRow,
> {
    Seq::new(
        s.len(),
        |i: int|
            if s[i].id == id {
                change.applied(s[i])
            } else {
                s[i]
            },
    )
}

/// The task rows with one column of the row `id` changed.
pub open spec fn task_rows_updated(s: Seq<TaskRow>, id: u64, change: TaskChange) -> Seq<TaskRow> {
    Seq::new(
        s.len(),
        |i: int|
            if s[i].task.id == id {
                change.applied(s[i])
            } else {
                s[i]
            },
    )
}

/// The task rows with the archive timestamp of every row of one project set.
pub open spec fn task_rows_archived(s: Seq<TaskRow>, project_id: u64, at: Option<u64>) -> Seq<
    TaskRow,
> {
    Seq::new(
        s.len(),
        |i: int|
            if s[i].task.project_id == project_id {
                TaskChange::Archived(at).applied(s[i])
            } else {
                s[i]
            },
    )
}

/// The mathematical value of a `Store`.
#[verifier::ext_equal]
pub struct StoreView {
    pub projects: Seq<ProjectRow>,
    pub tasks: Seq<TaskRow>,
    pub sessions: Seq<ActiveTracking>,
    pub entries: Seq<TimeEntry>,
    pub current_project_index: Option<usize>,
    pub journal: Seq<StoreWrite>,
}

impl StoreView {
    /// The tables keep their rows in increasing order of id.
    pub open spec fn wf(self) -> bool {
        &&& project_rows_ordered(self.projects)
        &&& task_rows_ordered(self.tasks)
        &&& entries_ordered(self.entries)
    }

    /// A store with empty tables and an empty journal.
    pub open spec fn empty() -> StoreView {
        StoreView {
            projects: Seq::empty(),
            tasks: Seq::empty(),
            sessions: Seq::empty(),
            entries: Seq::empty(),
            current_project_index: None,
            journal: Seq::empty(),
        }
    }

    /// Two stores hold the same tables, whatever their journals hold.
    pub open spec fn same_tables(self, other: StoreView) -> bool {
        &&& self.projects == other.projects
        &&& self.tasks == other.tasks
        &&& self.sessions == other.sessions
        &&& self.entries == other.entries
        &&& self.current_project_index == other.current_project_index
    }

    /// The id of the last project row.
    pub open spec fn last_project_id(self) -> Option<u64> {
        if self.projects.len() == 0 {
            None
        } else {
            Some(self.projects.last().id)
        }
    }

    /// The id of the last task row.
    pub open spec fn last_task_id(self) -> Option<u64> {
        if self.tasks.len() == 0 {
            None
        } else {
            Some(self.tasks.last().task.id)
        }
    }

    /// The tables after one write.
    pub open spec fn apply_tables(self, w: StoreWrite) -> StoreView {
        match w {
            StoreWrite::InsertProject { id, name } => StoreView {
                projects: project_rows_with(self.projects, id, name),
                ..self
            },
            StoreWrite::InsertTask { id, project_id, name, time_seconds } => StoreView {
                tasks: task_rows_with(self.tasks, id, project_id, name, time_seconds),
                ..self
            },
            StoreWrite::UpdateTask(id, change) => StoreView {
                tasks: task_rows_updated(self.tasks, id, change),
                ..self
            },
            StoreWrite::UpdateProject(id, change) => StoreView {
                projects: project_rows_updated(self.projects, id, change),
                ..self
            },
            StoreWrite::SetProjectTasksArchived { project_id, archived_at } => StoreView {
                tasks: task_rows_archived(self.tasks, project_id, archived_at),
                ..self
            },
            StoreWrite::DeleteProject { id } => StoreView {
                entries: self.entries.filter(entry_not_of_project(id)),
                tasks: self.tasks.filter(task_row_not_of_project(id)),
                projects: self.projects.filter(project_row_is_not(id)),
                ..self
            },
            StoreWrite::DeleteTask { id } => StoreView {
                entries: self.entries.filter(entry_not_of_task(id)),
                tasks: self.tasks.filter(task_row_is_not(id)),
                ..self
            },
            StoreWrite::InsertTimeEntry {
                project_id,
                task_id,
                start_time,
                end_time,
                duration_seconds,
            } => StoreView {
                entries: entries_with(
                    self.entries,
                    project_id,
                    task_id,
                    start_time,
                    end_time,
                    duration_seconds,
                ),
                ..self
            },
            StoreWrite::AddSession { session } => StoreView {
                sessions: self.sessions.push(session),
                ..self
            },
            StoreWrite::RemoveSession { task_id } => StoreView {
                sessions: self.sessions.filter(session_not_of_task(task_id)),
                ..self
            },
            StoreWrite::ClearSessions => StoreView { sessions: Seq::empty(), ..self },
            StoreWrite::SaveCurrentProjectIndex { index } => StoreView {
                current_project_index: Some(index),
                ..self
            },
            StoreWrite::MigrateLegacyFlags { now } => StoreView {
                projects: project_rows_migrated(self.projects, now),
                tasks: task_rows_migrated(self.tasks, now),
                ..self
            },
            StoreWrite::Reset => StoreView { journal: self.journal, ..StoreView::empty() },
        }
    }

    /// The store after one write: the tables changed, the write recorded.
    pub open spec fn apply(self, w: StoreWrite) -> StoreView {
        StoreView { journal: self.journal.push(w), ..self.apply_tables(w) }
    }

    /// The store after a list of writes, made in order.
    pub open spec fn apply_all(self, ws: Seq<StoreWrite>) -> StoreView
        decreases ws.len(),
    {
        if ws.len() == 0 {
            self
        } else {
            self.apply_all(ws.drop_last()).apply(ws.last())
        }
    }
}

/// Why a set of rows was not taken as the tables of a store.
#[derive(Clone, Copy, Debug, PartialEq, Eq, Structural)]
pub enum StoreError {
    /// The project rows do not stand in increasing order of id.
    ProjectsOutOfOrder,
    /// The task rows do not stand in increasing order of id.
    TasksOutOfOrder,
    /// The time entries do not stand in increasing order of id.
    EntriesOutOfOrder,
}

/// What `Store::from_rows` answers to a set of rows.
pub open spec fn rows_verdict(
    projects: Seq<ProjectRow>,
    tasks: Seq<TaskRow>,
    entries: Seq<TimeEntry>,
) -> Option<StoreError> {
    if !project_rows_ordered(projects) {
        Some(StoreError::ProjectsOutOfOrder)
    } else if !task_rows_ordered(tasks) {
        Some(StoreError::TasksOutOfOrder)
    } else if !entries_ordered(entries) {
        Some(StoreError::EntriesOutOfOrder)
    } else {
        None
    }
}

/// The durable tables and the journal of the writes made to them.
pub struct Store {
    projects: Vec<ProjectRow>,
    tasks: Vec<TaskRow>,
    sessions: Vec<ActiveTracking>,
    entries: Vec<TimeEntry>,
    current_project_index: Option<usize>,
    journal: Vec<StoreWrite>,
}

impl View for Store {
    type V = StoreView;

    closed spec fn view(&self) -> StoreView {
        StoreView {
            projects: self.projects@,
            tasks: self.tasks@,
            sessions: self.sessions@,
            entries: self.entries@,
            current_project_index: self.current_project_index,
            journal: self.journal@,
        }
    }
}

impl Store {
    /// A store with empty tables and an empty journal.
    pub fn new() -> (s: Store)
        ensures
            s@ == StoreView::empty(),
            s@.wf(),
    {
        Store {
            projects: Vec::new(),
            tasks: Vec::new(),
            sessions: Vec::new(),
            entries: Vec::new(),
            current_project_index: None,
            journal: Vec::new(),
        }
    }

    /// A store over rows that were read from a durable backend. The rows of
    /// each table must come in increasing order of id; the journal starts
    /// empty.
    pub fn from_rows(
        projects: Vec<ProjectRow>,
        tasks: Vec<TaskRow>,
        sessions: Vec<ActiveTracking>,
        entries: Vec<TimeEntry>,
        current_project_index: Option<usize>,
    ) -> (r: Result<Store, StoreError>)
        ensures
            match r {
                Ok(s) => {
                    &&& rows_verdict(projects@, tasks@, entries@) is None
                    &&& s@ == (StoreView {
                        projects: projects@,
                        tasks: tasks@,
                        sessions: sessions@,
                        entries: entries@,
                        current_project_index,
                        journal: Seq::empty(),
                    })
                    &&& s@.wf()
                },
                Err(e) => rows_verdict(projects@, tasks@, entries@) == Some(e),
            },
    {
        if !check_project_rows(&projects) {
            return Err(StoreError::ProjectsOutOfOrder);
        }
        if !check_task_rows(&tasks) {
            return Err(StoreError::TasksOutOfOrder);
        }
        if !check_entries(&entries) {
            return Err(StoreError::EntriesOutOfOrder);
        }
        Ok(Store { projects, tasks, sessions, entries, current_project_index, journal: Vec::new() })
    }

    /// The project rows, in increasing order of id.
    pub fn project_rows(&self) -> (r: &Vec<ProjectRow>)
        ensures
            r@ == self@.projects,
    {
        &self.projects
    }

    /// The task rows, in increasing order of id.
    pub fn task_rows(&self) -> (r: &Vec<TaskRow>)
        ensures
            r@ == self@.tasks,
    {
        &self.tasks
    }

    /// The rows of the running sessions, in the order in which they were
    /// added.
    pub fn session_rows(&self) -> (r: &Vec<ActiveTracking>)
        ensures
            r@ == self@.sessions,
    {
        &self.sessions
    }

    /// The ledger of time entries, in increasing order of id.
    pub fn entry_rows(&self) -> (r: &Vec<TimeEntry>)
        ensures
            r@ == self@.entries,
    {
        &self.entries
    }

    /// The position of the current project as it was last saved.
    pub fn saved_project_index(&self) -> (r: Option<usize>)
        ensures
            r == self@.current_project_index,
    {
        self.current_project_index
    }

    /// The writes that were made and not yet taken, oldest first.
    pub fn journal(&self) -> (r: &Vec<StoreWrite>)
        ensures
            r@ == self@.journal,
    {
        &self.journal
    }

    /// Hands out the journal and leaves it empty; the tables stay.
    pub fn take_journal(&mut self) -> (r: Vec<StoreWrite>)
        ensures
            r@ == old(self)@.journal,
            final(self)@ == (StoreView { journal: Seq::empty(), ..old(self)@ }),
    {
        let mut out: Vec<StoreWrite> = Vec::new();
        core::mem::swap(&mut out, &mut self.journal);
        out
    }

    /// Makes one write: changes the tables and records the write.
    pub fn apply(&mut self, w: StoreWrite)
        requires
            old(self)@.wf(),
        ensures
            final(self)@ == old(self)@.apply(w),
            final(self)@.wf(),
    {
        match &w {
            StoreWrite::InsertProject { id, name } => {
                insert_project_row(&mut self.projects, *id, name.clone());
            },
            StoreWrite::InsertTask { id, project_id, name, time_seconds } => {
                insert_task_row(&mut self.tasks, *id, *project_id, name.clone(), *time_seconds);
            },
            StoreWrite::UpdateTask(id, change) => {
                update_task_rows(&mut self.tasks, *id, change);
            },
            StoreWrite::UpdateProject(id, change) => {
                update_project_rows(&mut self.projects, *id, change);
            },
            StoreWrite::SetProjectTasksArchived { project_id, archived_at } => {
                archive_task_rows(&mut self.tasks, *project_id, *archived_at);
            },
            StoreWrite::DeleteProject { id } => {
                self.entries = entries_without_project(&self.entries, *id);
                self.tasks = task_rows_without_project(&self.tasks, *id);
                self.projects = project_rows_without(&self.projects, *id);
            },
            StoreWrite::DeleteTask { id } => {
                self.entries = entries_without_task(&self.entries, *id);
                self.tasks = task_rows_without(&self.tasks, *id);
            },
            StoreWrite::InsertTimeEntry {
                project_id,
                task_id,
                start_time,
                end_time,
                duration_seconds,
            } => {
                insert_entry(
                    &mut self.entries,
                    *project_id,
                    *task_id,
                    *start_time,
                    *end_time,
                    *duration_seconds,
                );
            },
            StoreWrite::AddSession { session } => {
                self.sessions.push(*session);
            },
            StoreWrite::RemoveSession { task_id } => {
                self.sessions = sessions_without_task(&self.sessions, *task_id);
            },
            StoreWrite::ClearSessions => {
                self.sessions = Vec::new();
            },
            StoreWrite::SaveCurrentProjectIndex { index } => {
                self.current_project_index = Some(*index);
            },
            StoreWrite::MigrateLegacyFlags { now } => {
                migrate_project_rows(&mut self.projects, *now);
                migrate_task_rows(&mut self.tasks, *now);
            },
            StoreWrite::Reset => {
                self.projects = Vec::new();
                self.tasks = Vec::new();
                self.sessions = Vec::new();
                self.entries = Vec::new();
                self.current_project_index = None;
            },
        }
        self.journal.push(w);
        assert(self@ =~= old(self)@.apply(w));
    }

    /// Makes a list of writes, one after the other: what a backend does that
    /// replays a journal.
    pub fn replay(&mut self, writes: &Vec<StoreWrite>)
        requires
            old(self)@.wf(),
        ensures
            final(self)@ == old(self)@.apply_all(writes@),
            final(self)@.wf(),
    {
        let mut i: usize = 0;
        while i < writes.len()
            invariant
                i <= writes.len(),
                self@.wf(),
                self@ == old(self)@.apply_all(writes@.take(i as int)),
            decreases writes.len() - i,
        {
            proof {
                assert(writes@.take(i + 1).drop_last() =~= writes@.take(i as int));
            }
            self.apply(writes[i].clone());
            i += 1;
        }
        assert(writes@.take(writes.len() as int) =~= writes@);
    }
}

impl Store {
    /// Adds a project row with no tasks behind it.
    pub fn insert_project(&mut self, id: u64, name: String)
        requires
            old(self)@.wf(),
        ensures
            final(self)@ == old(self)@.apply(StoreWrite::InsertProject { id, name }),
            final(self)@.wf(),
    {
        self.apply(StoreWrite::InsertProject { id, name });
    }

    /// Adds a task row that is neither finished nor archived.
    pub fn insert_task(&mut self, id: u64, project_id: u64, name: String, time_seconds: u64)
        requires
            old(self)@.wf(),
        ensures
            final(self)@ == old(self)@.apply(
                StoreWrite::InsertTask { id, project_id, name, time_seconds },
            ),
            final(self)@.wf(),
    {
        self.apply(StoreWrite::InsertTask { id, project_id, name, time_seconds });
    }

    /// Sets the name of a task row.
    pub fn update_task_name(&mut self, id: u64, name: String)
        requires
            old(self)@.wf(),
        ensures
            final(self)@ == old(self)@.apply(StoreWrite::UpdateTask(id, TaskChange::Name(name))),
            final(self)@.wf(),
    {
        self.apply(StoreWrite::UpdateTask(id, TaskChange::Name(name)));
    }

    /// Sets the committed seconds of a task row.
    pub fn update_task_time(&mut self, id: u64, time_seconds: u64)
        requires
            old(self)@.wf(),
        ensures
            final(self)@ == old(self)@.apply(
                StoreWrite::UpdateTask(id, TaskChange::Time(time_seconds)),
            ),
            final(self)@.wf(),
    {
        self.apply(StoreWrite::UpdateTask(id, TaskChange::Time(time_seconds)));
    }

    /// Sets or clears the finished-at stamp of a task row.
    pub fn update_task_done(&mut self, id: u64, done_at: Option<u64>)
        requires
            old(self)@.wf(),
        ensures
            final(self)@ == old(self)@.apply(StoreWrite::UpdateTask(id, TaskChange::Done(done_at))),
            final(self)@.wf(),
    {
        self.apply(StoreWrite::UpdateTask(id, TaskChange::Done(done_at)));
    }

    /// Sets or clears the archive stamp of a task row.
    pub fn update_task_archived(&mut self, id: u64, archived_at: Option<u64>)
        requires
            old(self)@.wf(),
        ensures
            final(self)@ == old(self)@.apply(
                StoreWrite::UpdateTask(id, TaskChange::Archived(archived_at)),
            ),
            final(self)@.wf(),
    {
        self.apply(StoreWrite::UpdateTask(id, TaskChange::Archived(archived_at)));
    }

    /// Sets the name of a project row.
    pub fn update_project_name(&mut self, id: u64, name: String)
        requires
            old(self)@.wf(),
        ensures
            final(self)@ == old(self)@.apply(
                StoreWrite::UpdateProject(id, ProjectChange::Name(name)),
            ),
            final(self)@.wf(),
    {
        self.apply(StoreWrite::UpdateProject(id, ProjectChange::Name(name)));
    }

    /// Sets the task position of a project row.
    pub fn update_project_current_index(&mut self, id: u64, index: usize)
        requires
            old(self)@.wf(),
        ensures
            final(self)@ == old(self)@.apply(
                StoreWrite::UpdateProject(id, ProjectChange::CurrentTaskIndex(index)),
            ),
            final(self)@.wf(),
    {
        self.apply(StoreWrite::UpdateProject(id, ProjectChange::CurrentTaskIndex(index)));
    }

    /// Sets or clears the archive stamp of a project row.
    pub fn update_project_archived(&mut self, id: u64, archived_at: Option<u64>)
        requires
            old(self)@.wf(),
        ensures
            final(self)@ == old(self)@.apply(
                StoreWrite::UpdateProject(id, ProjectChange::Archived(archived_at)),
            ),
            final(self)@.wf(),
    {
        self.apply(StoreWrite::UpdateProject(id, ProjectChange::Archived(archived_at)));
    }

    /// Removes a project row, its task rows and its time entries.
    pub fn delete_project_cascade(&mut self, id: u64)
        requires
            old(self)@.wf(),
        ensures
            final(self)@ == old(self)@.apply(StoreWrite::DeleteProject { id }),
            final(self)@.wf(),
    {
        self.apply(StoreWrite::DeleteProject { id });
    }

    /// Removes a task row and its time entries.
    pub fn delete_task_cascade(&mut self, id: u64)
        requires
            old(self)@.wf(),
        ensures
            final(self)@ == old(self)@.apply(StoreWrite::DeleteTask { id }),
            final(self)@.wf(),
    {
        self.apply(StoreWrite::DeleteTask { id });
    }

    /// Appends a time entry to the ledger, under the next entry id.
    pub fn insert_time_entry(
        &mut self,
        project_id: u64,
        task_id: u64,
        start_time: u64,
        end_time: u64,
        duration_seconds: u64,
    )
        requires
            old(self)@.wf(),
        ensures
            final(self)@ == old(self)@.apply(
                StoreWrite::InsertTimeEntry {
                    project_id,
                    task_id,
                    start_time,
                    end_time,
                    duration_seconds,
                },
            ),
            final(self)@.wf(),
    {
        self.apply(
            StoreWrite::InsertTimeEntry {
                project_id,
                task_id,
                start_time,
                end_time,
                duration_seconds,
            },
        );
    }

    /// Adds the row of a running session.
    pub fn add_active_session(&mut self, session: ActiveTracking)
        requires
            old(self)@.wf(),
        ensures
            final(self)@ == old(self)@.apply(StoreWrite::AddSession { session }),
            final(self)@.wf(),
    {
        self.apply(StoreWrite::AddSession { session });
    }

    /// Removes the session rows of a task.
    pub fn remove_active_session(&mut self, task_id: u64)
        requires
            old(self)@.wf(),
        ensures
            final(self)@ == old(self)@.apply(StoreWrite::RemoveSession { task_id }),
            final(self)@.wf(),
    {
        self.apply(StoreWrite::RemoveSession { task_id });
    }

    /// Removes every session row.
    pub fn clear_active_sessions(&mut self)
        requires
            old(self)@.wf(),
        ensures
            final(self)@ == old(self)@.apply(StoreWrite::ClearSessions),
            final(self)@.wf(),
    {
        self.apply(StoreWrite::ClearSessions);
    }

    /// Records the position of the current project.
    pub fn save_current_project_index(&mut self, index: usize)
        requires
            old(self)@.wf(),
        ensures
            final(self)@ == old(self)@.apply(StoreWrite::SaveCurrentProjectIndex { index }),
            final(self)@.wf(),
    {
        self.apply(StoreWrite::SaveCurrentProjectIndex { index });
    }
}

} // verus!

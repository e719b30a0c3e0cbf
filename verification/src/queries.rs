//! What is read from the store: the projects to put in rotation, the full
//! list with its archive status, single rows, and the next ids.

use vstd::prelude::*;
use crate::engine::{find_session, session_index, session_of_task, sessions_distinct};
use crate::model::{
    lemma_projects_view_push, projects_view, ActiveTracking, Project, ProjectView, Task,
};
use crate::seq_util::{
    first_match, lemma_filter_take_step, lemma_first_match_found, lemma_first_match_is_first,
    lemma_first_match_none,
};
use crate::store::{id_after, ProjectRow, Store, StoreView, TaskRow};

verus! {

/// Holds of the rows of the tasks of one project that are visible at `now`.
pub open spec fn task_row_visible(project_id: u64, now: u64) -> spec_fn(TaskRow) -> bool {
    |r: TaskRow| r.task.project_id == project_id && r.task.visible_at(now)
}

/// Holds of the rows of the tasks of one project that are not archived.
pub open spec fn task_row_active_of(project_id: u64) -> spec_fn(TaskRow) -> bool {
    |r: TaskRow| r.task.project_id == project_id && r.task.archived_at is None
}

/// Holds of the rows of the tasks of one project that are archived.
pub open spec fn task_row_archived_of(project_id: u64) -> spec_fn(TaskRow) -> bool {
    |r: TaskRow| r.task.project_id == project_id && r.task.archived_at is Some
}

/// Holds of the project rows that are not archived.
pub open spec fn project_row_active() -> spec_fn(ProjectRow) -> bool {
    |r: ProjectRow| r.archived_at is None
}

/// Holds of the project rows that are archived.
pub open spec fn project_row_archived() -> spec_fn(ProjectRow) -> bool {
    |r: ProjectRow| r.archived_at is Some
}

/// Holds of the project rows with this id.
pub open spec fn project_row_has_id(id: u64) -> spec_fn(ProjectRow) -> bool {
    |r: ProjectRow| r.id == id
}

/// Holds of the task rows with this id.
pub open spec fn task_row_has_id(id: u64) -> spec_fn(TaskRow) -> bool {
    |r: TaskRow| r.task.id == id
}

/// The tasks that a list of task rows holds.
pub open spec fn tasks_of(rows: Seq<TaskRow>) -> Seq<Task> {
    Seq::new(rows.len(), |i: int| rows[i].task)
}

/// A task position as it is taken over from a row: kept where it points
/// into the list, 0 otherwise.
pub open spec fn loaded_index(index: usize, len: nat) -> usize {
    if index < len {
        index
    } else {
        0
    }
}

/// A project as it enters the rotation at `now`: the tasks of its row that
/// are visible, in order of id, and its task position.
pub open spec fn loaded_project(tasks: Seq<TaskRow>, row: ProjectRow, now: u64) -> ProjectView {
    let visible = tasks_of(tasks.filter(task_row_visible(row.id, now)));
    ProjectView {
        id: row.id,
        name: row.name,
        tasks: visible,
        current_task_index: loaded_index(row.current_task_index, visible.len()),
        archived_at: None,
    }
}

/// The projects that a list of rows gives to the rotation at `now`.
pub open spec fn loaded_projects(tasks: Seq<TaskRow>, rows: Seq<ProjectRow>, now: u64) -> Seq<ProjectView> {
    Seq::new(rows.len(), |i: int| loaded_project(tasks, rows[i], now))
}

/// A project with its archive status: every task of its row, those that are
/// not archived first, each group in order of id.
pub open spec fn status_project(tasks: Seq<TaskRow>, row: ProjectRow) -> ProjectView {
    ProjectView {
        id: row.id,
        name: row.name,
        tasks: tasks_of(tasks.filter(task_row_active_of(row.id))) + tasks_of(
            tasks.filter(task_row_archived_of(row.id)),
        ),
        current_task_index: row.current_task_index,
        archived_at: row.archived_at,
    }
}

/// The projects of a list of rows, each with its archive status.
pub open spec fn status_projects(tasks: Seq<TaskRow>, rows: Seq<ProjectRow>) -> Seq<ProjectView> {
    Seq::new(rows.len(), |i: int| status_project(tasks, rows[i]))
}

/// The sessions of a list without those that repeat the task of an earlier
/// one.
pub open spec fn distinct_sessions(ss: Seq<ActiveTracking>) -> Seq<ActiveTracking>
    decreases ss.len(),
{
    if ss.len() == 0 {
        ss
    } else {
        let before = distinct_sessions(ss.drop_last());
        if session_index(before, ss.last().task_id) is Some {
            before
        } else {
            before.push(ss.last())
        }
    }
}

impl StoreView {
    /// The projects that the store gives to the rotation at `now`: those
    /// that are not archived, in order of id, each with its visible tasks.
    pub open spec fn visible_projects(self, now: u64) -> Seq<ProjectView> {
        loaded_projects(self.tasks, self.projects.filter(project_row_active()), now)
    }

    /// Every project of the store with its archive status: those that are
    /// not archived first, each group in order of id.
    pub open spec fn all_projects_with_status(self) -> Seq<ProjectView> {
        status_projects(self.tasks, self.projects.filter(project_row_active())) + status_projects(
            self.tasks,
            self.projects.filter(project_row_archived()),
        )
    }

    /// The project row with this id.
    pub open spec fn project_row(self, id: u64) -> Option<ProjectRow> {
        match first_match(self.projects, project_row_has_id(id)) {
            Some(i) => Some(self.projects[i]),
            None => None,
        }
    }

    /// The task row with this id.
    pub open spec fn task_row(self, id: u64) -> Option<TaskRow> {
        match first_match(self.tasks, task_row_has_id(id)) {
            Some(i) => Some(self.tasks[i]),
            None => None,
        }
    }

    /// The id that the next project receives: one more than the largest in
    /// the table, or 1.
    pub open spec fn next_project_id(self) -> u64 {
        id_after(self.last_project_id())
    }

    /// The id that the next task receives: one more than the largest in the
    /// table, or 1.
    pub open spec fn next_task_id(self) -> u64 {
        id_after(self.last_task_id())
    }

    /// The position of the current project as it is taken over from the
    /// store: 0 where none was saved.
    pub open spec fn loaded_project_index(self) -> usize {
        match self.current_project_index {
            Some(i) => i,
            None => 0,
        }
    }
}

/// Every task of every project that enters the rotation at `now` is visible
/// at `now`: it is not archived, and it is unfinished or was finished at most
/// `DONE_HIDE_WINDOW` seconds before.
pub proof fn lemma_loaded_tasks_are_visible(tasks: Seq<TaskRow>, rows: Seq<ProjectRow>, now: u64)
    ensures
        forall|i: int, j: int|
            0 <= i < rows.len() && 0 <= j < loaded_projects(tasks, rows, now)[i].tasks.len() ==> (
            #[trigger] loaded_projects(tasks, rows, now)[i].tasks[j]).visible_at(now),
{
    let ps = loaded_projects(tasks, rows, now);
    assert forall|i: int, j: int| 0 <= i < rows.len() && 0 <= j < ps[i].tasks.len() implies (
    #[trigger] ps[i].tasks[j]).visible_at(now) by {
        let f = tasks.filter(task_row_visible(rows[i].id, now));
        tasks.lemma_filter_pred(task_row_visible(rows[i].id, now), j);
        assert(task_row_visible(rows[i].id, now)(f[j]));
    }
}

/// The tasks of the rows of one project that are visible at `now`.
pub fn visible_tasks(rows: &Vec<TaskRow>, project_id: u64, now: u64) -> (r: Vec<Task>)
    ensures
        r@ == tasks_of(rows@.filter(task_row_visible(project_id, now))),
{
    let mut r: Vec<Task> = Vec::new();
    let mut i: usize = 0;
    while i < rows.len()
        invariant
            i <= rows.len(),
            r@ == tasks_of(rows@.take(i as int).filter(task_row_visible(project_id, now))),
        decreases rows.len() - i,
    {
        proof {
            lemma_filter_take_step(rows@, task_row_visible(project_id, now), i as int);
        }
        let ghost f = rows@.take(i as int).filter(task_row_visible(project_id, now));
        if rows[i].task.project_id == project_id && rows[i].task.is_visible(now) {
            r.push(rows[i].task.clone());
            assert(r@ =~= tasks_of(f.push(rows@[i as int])));
        }
        i += 1;
    }
    assert(rows@.take(rows.len() as int) =~= rows@);
    r
}

/// The tasks of the rows of one project that are archived, or those that are
/// not.
pub fn tasks_by_archive(rows: &Vec<TaskRow>, project_id: u64, archived: bool) -> (r: Vec<Task>)
    ensures
        r@ == tasks_of(
            rows@.filter(
                if archived {
                    task_row_archived_of(project_id)
                } else {
                    task_row_active_of(project_id)
                },
            ),
        ),
{
    let ghost p = if archived {
        task_row_archived_of(project_id)
    } else {
        task_row_active_of(project_id)
    };
    let mut r: Vec<Task> = Vec::new();
    let mut i: usize = 0;
    while i < rows.len()
        invariant
            i <= rows.len(),
            p == (if archived {
                task_row_archived_of(project_id)
            } else {
                task_row_active_of(project_id)
            }),
            r@ == tasks_of(rows@.take(i as int).filter(p)),
        decreases rows.len() - i,
    {
        proof {
            lemma_filter_take_step(rows@, p, i as int);
        }
        let ghost f = rows@.take(i as int).filter(p);
        if rows[i].task.project_id == project_id && rows[i].task.archived_at.is_some() == archived {
            r.push(rows[i].task.clone());
            assert(r@ =~= tasks_of(f.push(rows@[i as int])));
        }
        i += 1;
    }
    assert(rows@.take(rows.len() as int) =~= rows@);
    r
}

/// The project that one row gives to the rotation at `now`.
pub fn load_project(tasks: &Vec<TaskRow>, row: &ProjectRow, now: u64) -> (p: Project)
    ensures
        p@ == loaded_project(tasks@, *row, now),
{
    let visible = visible_tasks(tasks, row.id, now);
    let index: usize = if row.current_task_index < visible.len() {
        row.current_task_index
    } else {
        0
    };
    Project {
        id: row.id,
        name: row.name.clone(),
        tasks: visible,
        current_task_index: index,
        archived_at: None,
    }
}

/// Adds to `out` the projects of the rows that are archived, or of those
/// that are not, each with its archive status.
pub fn push_status_projects(
    out: &mut Vec<Project>,
    tasks: &Vec<TaskRow>,
    rows: &Vec<ProjectRow>,
    archived: bool,
)
    ensures
        projects_view(final(out)@) == projects_view(old(out)@) + status_projects(
            tasks@,
            rows@.filter(
                if archived {
                    project_row_archived()
                } else {
                    project_row_active()
                },
            ),
        ),
{
    let ghost p = if archived {
        project_row_archived()
    } else {
        project_row_active()
    };
    let ghost start = projects_view(out@);
    let mut i: usize = 0;
    while i < rows.len()
        invariant
            i <= rows.len(),
            p == (if archived {
                project_row_archived()
            } else {
                project_row_active()
            }),
            projects_view(out@) == start + status_projects(tasks@, rows@.take(i as int).filter(p)),
        decreases rows.len() - i,
    {
        proof {
            lemma_filter_take_step(rows@, p, i as int);
        }
        let ghost f = rows@.take(i as int).filter(p);
        if rows[i].archived_at.is_some() == archived {
            let mut all = tasks_by_archive(tasks, rows[i].id, false);
            let mut gone = tasks_by_archive(tasks, rows[i].id, true);
            all.append(&mut gone);
            let project = Project {
                id: rows[i].id,
                name: rows[i].name.clone(),
                tasks: all,
                current_task_index: rows[i].current_task_index,
                archived_at: rows[i].archived_at,
            };
            proof {
                lemma_projects_view_push(out@, project);
                assert(project@ == status_project(tasks@, rows@[i as int]));
                assert(start + status_projects(tasks@, f.push(rows@[i as int])) =~= (start
                    + status_projects(tasks@, f)).push(project@));
            }
            out.push(project);
        }
        i += 1;
    }
    assert(rows@.take(rows.len() as int) =~= rows@);
}

impl Store {
    /// The projects to put in rotation at `now`: those that are not
    /// archived, in order of id, each with the tasks that are visible at
    /// `now`, in order of id.
    pub fn load_visible_projects_with_tasks(&self, now: u64) -> (r: Vec<Project>)
        ensures
            projects_view(r@) == self@.visible_projects(now),
            forall|i: int, j: int|
                0 <= i < r@.len() && 0 <= j < r@[i].tasks@.len() ==> (#[trigger] r@[i].tasks@[j]).visible_at(now),
    {
        let rows = self.project_rows();
        let tasks = self.task_rows();
        let mut r: Vec<Project> = Vec::new();
        let mut i: usize = 0;
        while i < rows.len()
            invariant
                i <= rows.len(),
                rows@ == self@.projects,
                tasks@ == self@.tasks,
                projects_view(r@) == loaded_projects(
                    tasks@,
                    rows@.take(i as int).filter(project_row_active()),
                    now,
                ),
            decreases rows.len() - i,
        {
            proof {
                lemma_filter_take_step(rows@, project_row_active(), i as int);
            }
            let ghost f = rows@.take(i as int).filter(project_row_active());
            if rows[i].archived_at.is_none() {
                let p = load_project(tasks, &rows[i], now);
                proof {
                    lemma_projects_view_push(r@, p);
                    assert(loaded_projects(tasks@, f.push(rows@[i as int]), now) =~= loaded_projects(
                        tasks@,
                        f,
                        now,
                    ).push(p@));
                }
                r.push(p);
            }
            i += 1;
        }
        assert(rows@.take(rows.len() as int) =~= rows@);
        proof {
            let f = rows@.filter(project_row_active());
            lemma_loaded_tasks_are_visible(tasks@, f, now);
            let ps = loaded_projects(tasks@, f, now);
            assert forall|i: int, j: int| 0 <= i < r@.len() && 0 <= j < r@[i].tasks@.len() implies (
            #[trigger] r@[i].tasks@[j]).visible_at(now) by {
                assert(projects_view(r@)[i] == r@[i]@);
                assert(ps[i].tasks[j].visible_at(now));
            }
        }
        r
    }

    /// Every project of the store with its archive status: those that are
    /// not archived first, each group in order of id, and in each project the
    /// tasks that are not archived first.
    pub fn load_all_projects_with_tasks_and_status(&self) -> (r: Vec<Project>)
        ensures
            projects_view(r@) == self@.all_projects_with_status(),
    {
        let mut r: Vec<Project> = Vec::new();
        assert(projects_view(r@) =~= Seq::empty());
        push_status_projects(&mut r, self.task_rows(), self.project_rows(), false);
        push_status_projects(&mut r, self.task_rows(), self.project_rows(), true);
        assert(projects_view(r@) =~= self@.all_projects_with_status());
        r
    }

    /// The project row with this id.
    pub fn find_project_row(&self, id: u64) -> (r: Option<ProjectRow>)
        ensures
            r == self@.project_row(id),
    {
        let rows = self.project_rows();
        let mut i: usize = 0;
        while i < rows.len()
            invariant
                i <= rows.len(),
                rows@ == self@.projects,
                forall|j: int| 0 <= j < i ==> !#[trigger] project_row_has_id(id)(rows@[j]),
            decreases rows.len() - i,
        {
            if rows[i].id == id {
                proof {
                    assert(project_row_has_id(id)(rows@[i as int]));
                    lemma_first_match_found(rows@, project_row_has_id(id), i as int);
                }
                return Some(rows[i].clone());
            }
            i += 1;
        }
        proof {
            lemma_first_match_none(rows@, project_row_has_id(id));
        }
        None
    }

    /// The task row with this id.
    pub fn find_task_row(&self, id: u64) -> (r: Option<TaskRow>)
        ensures
            r == self@.task_row(id),
    {
        let rows = self.task_rows();
        let mut i: usize = 0;
        while i < rows.len()
            invariant
                i <= rows.len(),
                rows@ == self@.tasks,
                forall|j: int| 0 <= j < i ==> !#[trigger] task_row_has_id(id)(rows@[j]),
            decreases rows.len() - i,
        {
            if rows[i].task.id == id {
                proof {
                    assert(task_row_has_id(id)(rows@[i as int]));
                    lemma_first_match_found(rows@, task_row_has_id(id), i as int);
                }
                return Some(rows[i].clone());
            }
            i += 1;
        }
        proof {
            lemma_first_match_none(rows@, task_row_has_id(id));
        }
        None
    }

    /// The id that the next project receives.
    pub fn next_project_id(&self) -> (r: u64)
        ensures
            r == self@.next_project_id(),
    {
        let rows = self.project_rows();
        let n = rows.len();
        if n == 0 {
            1
        } else {
            rows[n - 1].id.saturating_add(1)
        }
    }

    /// The id that the next task receives.
    pub fn next_task_id(&self) -> (r: u64)
        ensures
            r == self@.next_task_id(),
    {
        let rows = self.task_rows();
        let n = rows.len();
        if n == 0 {
            1
        } else {
            rows[n - 1].task.id.saturating_add(1)
        }
    }

    /// The position of the current project as it was saved, or 0.
    pub fn load_current_project_index(&self) -> (r: usize)
        ensures
            r == self@.loaded_project_index(),
    {
        match self.saved_project_index() {
            Some(i) => i,
            None => 0,
        }
    }

    /// The running sessions as the store holds them, without those that
    /// repeat the task of an earlier one.
    pub fn load_active_sessions(&self) -> (r: Vec<ActiveTracking>)
        ensures
            r@ == distinct_sessions(self@.sessions),
            sessions_distinct(r@),
    {
        let rows = self.session_rows();
        let mut r: Vec<ActiveTracking> = Vec::new();
        let mut i: usize = 0;
        while i < rows.len()
            invariant
                i <= rows.len(),
                rows@ == self@.sessions,
                r@ == distinct_sessions(rows@.take(i as int)),
                sessions_distinct(r@),
            decreases rows.len() - i,
        {
            proof {
                assert(rows@.take(i + 1).drop_last() =~= rows@.take(i as int));
            }
            if find_session(&r, rows[i].task_id).is_none() {
                proof {
                    lemma_first_match_is_first(r@, session_of_task(rows@[i as int].task_id));
                    assert forall|j: int| 0 <= j < r@.len() implies r@[j].task_id != rows@[i as int].task_id by {
                        assert(!session_of_task(rows@[i as int].task_id)(r@[j]));
                    }
                }
                r.push(rows[i]);
            }
            i += 1;
        }
        assert(rows@.take(rows.len() as int) =~= rows@);
        r
    }
}

} // verus!

//! Bringing archived projects and tasks back, and listing everything with
//! its archive status.

use vstd::prelude::*;
use crate::engine::{
    find_project, find_task, project_index, task_index, view_of, Engine, EngineView,
};
use crate::model::{lemma_projects_view_push, projects_view, Project, ProjectView, Task};
use crate::queries::{load_project, loaded_project};
use crate::store::{ProjectChange, ProjectRow, StoreView, StoreWrite, TaskChange};
use crate::validity::{
    lemma_restore_project_keeps_wf, lemma_restore_task_keeps_wf, lemma_same_ids_same_index,
};

verus! {

impl EngineView {
    /// The store after the archive stamps of a project and of its tasks were
    /// cleared.
    pub open spec fn store_with_project_restored(self, project_id: u64) -> StoreView {
        self.store.apply(
            StoreWrite::UpdateProject(project_id, ProjectChange::Archived(None)),
        ).apply(StoreWrite::SetProjectTasksArchived { project_id, archived_at: None })
    }

    /// The state after a project was restored at `now`: the archive stamps
    /// of its row and of the rows of its tasks are cleared, and the project
    /// joins the end of the rotation with the tasks that are visible at
    /// `now`. Where the rotation holds a project with this id already, or the
    /// store holds none, nothing changes.
    pub open spec fn restore_project(self, project_id: u64, now: u64) -> EngineView {
        if project_index(self.projects, project_id) is Some || self.store.project_row(
            project_id,
        ) is None {
            self
        } else {
            let store = self.store_with_project_restored(project_id);
            let row = ProjectRow {
                archived_at: None,
                ..self.store.project_row(project_id).unwrap()
            };
            EngineView {
                store,
                projects: self.projects.push(loaded_project(store.tasks, row, now)),
                ..self
            }
        }
    }

    /// A task can be restored to a project: the store holds its row under
    /// this project, and the project does not hold it.
    pub open spec fn can_restore_task(self, project_id: u64, task_id: u64) -> bool {
        &&& project_index(self.projects, project_id) matches Some(pi)
        &&& task_index(self.projects[pi].tasks, task_id) is None
        &&& self.store.task_row(task_id) matches Some(row)
        &&& row.task.project_id == project_id
    }

    /// The state after a task was restored: the archive stamp of its row is
    /// cleared, and the task joins the end of the first project with this
    /// project id. Where the rotation holds no such project, the project
    /// holds the task already, or the store holds no row of the task under
    /// this project, nothing changes.
    pub open spec fn restore_task(self, project_id: u64, task_id: u64) -> EngineView {
        if !self.can_restore_task(project_id, task_id) {
            self
        } else {
            let pi = project_index(self.projects, project_id).unwrap();
            let row = self.store.task_row(task_id).unwrap();
            EngineView {
                store: self.store.apply(
                    StoreWrite::UpdateTask(task_id, TaskChange::Archived(None)),
                ),
                projects: self.projects.update(
                    pi,
                    ProjectView {
                        tasks: self.projects[pi].tasks.push(
                            Task { archived_at: None, ..row.task },
                        ),
                        ..self.projects[pi]
                    },
                ),
                ..self
            }
        }
    }
}

impl Engine {
    /// Every project of the store with its archive status: those that are
    /// not archived first, each group in order of id, and in each project the
    /// tasks that are not archived first.
    pub fn get_all_projects_with_status(&self) -> (r: Vec<Project>)
        ensures
            projects_view(r@) == self@.store.all_projects_with_status(),
    {
        self.store.load_all_projects_with_tasks_and_status()
    }

    /// Restores a project at `now` and returns the projects in rotation.
    ///
    /// Where the store holds the project and the rotation does not, the
    /// archive stamps of the project and of its tasks are cleared in the
    /// store, and the project joins the end of the rotation with the tasks
    /// that are visible at `now`. Otherwise nothing changes.
    pub fn restore_project(&mut self, project_id: u64, now: u64) -> (r: Vec<Project>)
        requires
            old(self)@.wf(),
        ensures
            final(self)@ == old(self)@.restore_project(project_id, now),
            final(self)@.wf(),
            projects_view(r@) == final(self)@.projects,
    {
        let ghost before = self@;
        proof {
            lemma_restore_project_keeps_wf(before, project_id, now);
        }
        if find_project(&self.projects, project_id).is_none() {
            if let Some(found) = self.store.find_project_row(project_id) {
                self.store.update_project_archived(project_id, None);
                self.store.apply(
                    StoreWrite::SetProjectTasksArchived { project_id, archived_at: None },
                );
                let row = ProjectRow {
                    id: found.id,
                    name: found.name,
                    current_task_index: found.current_task_index,
                    archived_at: None,
                    legacy_archived: found.legacy_archived,
                };
                let p = load_project(self.store.task_rows(), &row, now);
                proof {
                    lemma_projects_view_push(self.projects@, p);
                }
                self.projects.push(p);
            }
        }
        self.get_projects()
    }

    /// Restores a task and returns its project. Returns nothing where the
    /// rotation holds no project with this project id.
    ///
    /// Where the store holds the task under this project and the project
    /// does not hold it, the archive stamp of the task is cleared in the
    /// store and the task joins the end of the project. Otherwise nothing
    /// changes.
    pub fn restore_task(&mut self, project_id: u64, task_id: u64) -> (r: Option<Project>)
        requires
            old(self)@.wf(),
        ensures
            final(self)@ == old(self)@.restore_task(project_id, task_id),
            final(self)@.wf(),
            view_of(r) == final(self)@.project_with_id(project_id),
    {
        let ghost before = self@;
        proof {
            lemma_restore_task_keeps_wf(before, project_id, task_id);
        }
        let pi = match find_project(&self.projects, project_id) {
            Some(pi) => pi,
            None => {
                return None;
            },
        };
        if find_task(&self.projects[pi].tasks, task_id).is_none() {
            if let Some(row) = self.store.find_task_row(task_id) {
                if row.task.project_id == project_id {
                    self.store.update_task_archived(task_id, None);
                    let t = Task {
                        id: row.task.id,
                        project_id: row.task.project_id,
                        name: row.task.name,
                        time_seconds: row.task.time_seconds,
                        done_at: row.task.done_at,
                        archived_at: None,
                    };
                    self.projects[pi].tasks.push(t);
                    proof {
                        let old_p = before.projects[pi as int];
                        assert(projects_view(self.projects@) =~= before.projects.update(
                            pi as int,
                            ProjectView { tasks: old_p.tasks.push(t), ..old_p },
                        ));
                    }
                }
            }
        }
        proof {
            lemma_same_ids_same_index(before.projects, self@.projects, project_id);
        }
        Some(self.projects[pi].clone())
    }
}

} // verus!

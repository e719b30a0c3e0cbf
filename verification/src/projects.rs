//! Adding, renaming, archiving and deleting projects and tasks.

use vstd::prelude::*;
use crate::engine::{
    find_project, find_session, find_task, project_index, replace_task, session_index, task_index,
    view_of, Engine, EngineView,
};
use crate::model::{
    lemma_projects_view_push, projects_view, ActiveTracking, Project, ProjectView, Task,
};
use crate::seq_util::lemma_filter_take_step;
use crate::store::{session_not_of_task, ProjectChange, StoreView, StoreWrite, TaskChange};
use crate::tables::sessions_without_task;
use crate::validity::{
    lemma_add_project_keeps_wf, lemma_add_task_keeps_wf, lemma_delete_keeps_wf,
    lemma_remove_project_keeps_wf, lemma_remove_task_keeps_wf, lemma_rename_project_keeps_wf,
    lemma_rename_task_keeps_wf, lemma_reset_keeps_wf, lemma_same_ids_same_index,
};

verus! {

/// Holds of the sessions that run against a task of another project than
/// `project_id`.
pub open spec fn session_not_of_project(project_id: u64) -> spec_fn(ActiveTracking) -> bool {
    |s: ActiveTracking| s.project_id != project_id
}

/// The store after the sessions of one project were taken out of it: one
/// write for each of them, in the order of the sessions.
pub open spec fn sessions_dropped(store: StoreView, ss: Seq<ActiveTracking>, project_id: u64) -> StoreView
    decreases ss.len(),
{
    if ss.len() == 0 {
        store
    } else {
        let before = sessions_dropped(store, ss.drop_last(), project_id);
        if ss.last().project_id == project_id {
            before.apply(StoreWrite::RemoveSession { task_id: ss.last().task_id })
        } else {
            before
        }
    }
}

/// A position in a list from which one element left: it falls back to the
/// front where it would stand behind the end.
pub open spec fn clamped(index: usize, len: nat) -> usize {
    if index >= len && len > 0 {
        0
    } else {
        index
    }
}

/// A project as it is added: no tasks, task position 0, not archived.
pub open spec fn fresh_project(id: u64, name: String) -> ProjectView {
    ProjectView { id, name, tasks: Seq::empty(), current_task_index: 0, archived_at: None }
}

/// A task as it is added: no time, neither finished nor archived.
pub open spec fn fresh_task(id: u64, project_id: u64, name: String) -> Task {
    Task { id, project_id, name, time_seconds: 0, done_at: None, archived_at: None }
}

impl EngineView {
    /// The state after a project was added under the next project id. Where
    /// the ids have run out, nothing changes.
    pub open spec fn add_project(self, name: String) -> EngineView {
        if self.next_project_id == u64::MAX {
            self
        } else {
            EngineView {
                projects: self.projects.push(fresh_project(self.next_project_id, name)),
                store: self.store.apply(
                    StoreWrite::InsertProject { id: self.next_project_id, name },
                ),
                next_project_id: (self.next_project_id + 1) as u64,
                ..self
            }
        }
    }

    /// The state after the first project with this id was archived at `now`:
    /// it leaves the rotation with its sessions, and its rows are stamped.
    /// Where no project has this id, nothing changes.
    pub open spec fn remove_project(self, project_id: u64, now: u64) -> EngineView {
        match project_index(self.projects, project_id) {
            None => self,
            Some(pos) => {
                let projects = self.projects.remove(pos);
                let current = clamped(self.current_project_index, projects.len());
                EngineView {
                    projects,
                    current_project_index: current,
                    sessions: self.sessions.filter(session_not_of_project(project_id)),
                    store: sessions_dropped(self.store, self.sessions, project_id).apply(
                        StoreWrite::SetProjectTasksArchived { project_id, archived_at: Some(now) },
                    ).apply(
                        StoreWrite::UpdateProject(project_id, ProjectChange::Archived(Some(now))),
                    ).apply(StoreWrite::SaveCurrentProjectIndex { index: current }),
                    ..self
                }
            },
        }
    }

    /// The state after the first project with this id was renamed. Where no
    /// project has this id, nothing changes.
    pub open spec fn rename_project(self, project_id: u64, new_name: String) -> EngineView {
        match project_index(self.projects, project_id) {
            None => self,
            Some(pi) => EngineView {
                projects: self.projects.update(
                    pi,
                    ProjectView { name: new_name, ..self.projects[pi] },
                ),
                store: self.store.apply(
                    StoreWrite::UpdateProject(project_id, ProjectChange::Name(new_name)),
                ),
                ..self
            },
        }
    }

    /// The state after a task was added to the first project with this id,
    /// under the next task id. Where no project has this id, or the ids have
    /// run out, nothing changes.
    pub open spec fn add_task(self, project_id: u64, name: String) -> EngineView {
        match project_index(self.projects, project_id) {
            None => self,
            Some(pi) => if self.next_task_id == u64::MAX {
                self
            } else {
                let p = self.projects[pi];
                EngineView {
                    projects: self.projects.update(
                        pi,
                        ProjectView {
                            tasks: p.tasks.push(fresh_task(self.next_task_id, project_id, name)),
                            ..p
                        },
                    ),
                    store: self.store.apply(
                        StoreWrite::InsertTask {
                            id: self.next_task_id,
                            project_id,
                            name,
                            time_seconds: 0,
                        },
                    ),
                    next_task_id: (self.next_task_id + 1) as u64,
                    ..self
                }
            },
        }
    }

    /// The state after a task of the first project with this id was archived
    /// at `now`: the first task with this id leaves the project, its session
    /// ends without a commit, and its row is stamped. Where the project holds
    /// no task with this id, or no project has this id, nothing changes.
    pub open spec fn remove_task(self, project_id: u64, task_id: u64, now: u64) -> EngineView {
        match project_index(self.projects, project_id) {
            None => self,
            Some(pi) => {
                let p = self.projects[pi];
                match task_index(p.tasks, task_id) {
                    None => self,
                    Some(ti) => {
                        let running = session_index(self.sessions, task_id) is Some;
                        let store = if running {
                            self.store.apply(StoreWrite::RemoveSession { task_id })
                        } else {
                            self.store
                        };
                        let tasks = p.tasks.remove(ti);
                        let current = clamped(p.current_task_index, tasks.len());
                        EngineView {
                            sessions: if running {
                                self.sessions.filter(session_not_of_task(task_id))
                            } else {
                                self.sessions
                            },
                            projects: self.projects.update(
                                pi,
                                ProjectView { tasks, current_task_index: current, ..p },
                            ),
                            store: store.apply(
                                StoreWrite::UpdateTask(task_id, TaskChange::Archived(Some(now))),
                            ).apply(
                                StoreWrite::UpdateProject(
                                    project_id,
                                    ProjectChange::CurrentTaskIndex(current),
                                ),
                            ),
                            ..self
                        }
                    },
                }
            },
        }
    }

    /// The state after the first task with this id in the first project with
    /// this id was renamed. Where there is no such task, nothing changes.
    pub open spec fn rename_task(self, project_id: u64, task_id: u64, new_name: String) -> EngineView {
        match project_index(self.projects, project_id) {
            None => self,
            Some(pi) => match task_index(self.projects[pi].tasks, task_id) {
                None => self,
                Some(ti) => EngineView {
                    projects: replace_task(
                        self.projects,
                        pi,
                        ti,
                        Task { name: new_name, ..self.projects[pi].tasks[ti] },
                    ),
                    store: self.store.apply(
                        StoreWrite::UpdateTask(task_id, TaskChange::Name(new_name)),
                    ),
                    ..self
                },
            },
        }
    }

    /// The state after a task row and its time entries were deleted from the
    /// store. The rotation stays as it is.
    pub open spec fn delete_task_permanent(self, task_id: u64) -> EngineView {
        EngineView { store: self.store.apply(StoreWrite::DeleteTask { id: task_id }), ..self }
    }

    /// The state after a project row, its task rows and its time entries were
    /// deleted from the store. The rotation stays as it is.
    pub open spec fn delete_project_permanent(self, project_id: u64) -> EngineView {
        EngineView { store: self.store.apply(StoreWrite::DeleteProject { id: project_id }), ..self }
    }

    /// The state after everything was wiped: no rows, no projects, no
    /// sessions, and both counters back at 1.
    pub open spec fn reset_database(self) -> EngineView {
        EngineView {
            store: self.store.apply(StoreWrite::Reset),
            projects: Seq::empty(),
            current_project_index: 0,
            next_project_id: 1,
            next_task_id: 1,
            sessions: Seq::empty(),
        }
    }
}

impl Engine {
    /// Adds a project under the next project id and returns the projects in
    /// rotation.
    pub fn add_project(&mut self, name: String) -> (r: Vec<Project>)
        requires
            old(self)@.wf(),
        ensures
            final(self)@ == old(self)@.add_project(name),
            final(self)@.wf(),
            projects_view(r@) == final(self)@.projects,
    {
        proof {
            lemma_add_project_keeps_wf(self@, name);
        }
        if self.next_project_id < u64::MAX {
            let id = self.next_project_id;
            self.store.insert_project(id, name.clone());
            let p = Project { id, name, tasks: Vec::new(), current_task_index: 0, archived_at: None };
            proof {
                lemma_projects_view_push(self.projects@, p);
                assert(p@ == fresh_project(id, name));
            }
            self.projects.push(p);
            self.next_project_id = id + 1;
        }
        self.get_projects()
    }

    /// Archives the first project with this id at `now` and returns the
    /// projects in rotation.
    ///
    /// The project leaves the rotation, the sessions of its tasks end without
    /// a commit, and its rows in the store are stamped with `now`. The
    /// current position falls back to the front where it would stand behind
    /// the end.
    pub fn remove_project(&mut self, project_id: u64, now: u64) -> (r: Vec<Project>)
        requires
            old(self)@.wf(),
        ensures
            final(self)@ == old(self)@.remove_project(project_id, now),
            final(self)@.wf(),
            projects_view(r@) == final(self)@.projects,
    {
        let ghost before = self@;
        proof {
            lemma_remove_project_keeps_wf(before, project_id, now);
        }
        if let Some(pos) = find_project(&self.projects, project_id) {
            let mut kept: Vec<ActiveTracking> = Vec::new();
            let mut i: usize = 0;
            while i < self.sessions.len()
                invariant
                    i <= self.sessions.len(),
                    self.sessions@ == before.sessions,
                    self.projects@ == old(self).projects@,
                    self.current_project_index == before.current_project_index,
                    self.next_project_id == before.next_project_id,
                    self.next_task_id == before.next_task_id,
                    kept@ == before.sessions.take(i as int).filter(session_not_of_project(project_id)),
                    self.store@ == sessions_dropped(
                        before.store,
                        before.sessions.take(i as int),
                        project_id,
                    ),
                    self.store@.wf(),
                decreases self.sessions.len() - i,
            {
                let s = self.sessions[i];
                proof {
                    lemma_filter_take_step(
                        before.sessions,
                        session_not_of_project(project_id),
                        i as int,
                    );
                    assert(before.sessions.take(i + 1).drop_last() =~= before.sessions.take(i as int));
                }
                if s.project_id == project_id {
                    self.store.remove_active_session(s.task_id);
                } else {
                    kept.push(s);
                }
                i += 1;
            }
            assert(before.sessions.take(before.sessions.len() as int) =~= before.sessions);
            self.sessions = kept;
            self.store.apply(
                StoreWrite::SetProjectTasksArchived { project_id, archived_at: Some(now) },
            );
            self.store.update_project_archived(project_id, Some(now));
            self.projects.remove(pos);
            if self.current_project_index >= self.projects.len() && self.projects.len() > 0 {
                self.current_project_index = 0;
            }
            self.store.save_current_project_index(self.current_project_index);
            assert(projects_view(self.projects@) =~= before.projects.remove(pos as int));
        }
        self.get_projects()
    }

    /// Renames the first project with this id and returns the projects in
    /// rotation.
    pub fn rename_project(&mut self, project_id: u64, new_name: String) -> (r: Vec<Project>)
        requires
            old(self)@.wf(),
        ensures
            final(self)@ == old(self)@.rename_project(project_id, new_name),
            final(self)@.wf(),
            projects_view(r@) == final(self)@.projects,
    {
        let ghost before = self@;
        proof {
            lemma_rename_project_keeps_wf(before, project_id, new_name);
        }
        if let Some(pi) = find_project(&self.projects, project_id) {
            self.projects[pi].name = new_name.clone();
            self.store.update_project_name(project_id, new_name);
            assert(projects_view(self.projects@) =~= before.projects.update(
                pi as int,
                ProjectView { name: new_name, ..before.projects[pi as int] },
            ));
        }
        self.get_projects()
    }

    /// Adds a task to the first project with this id, under the next task
    /// id, and returns the project. Returns nothing where no project has this
    /// id.
    pub fn add_task(&mut self, project_id: u64, name: String) -> (r: Option<Project>)
        requires
            old(self)@.wf(),
        ensures
            final(self)@ == old(self)@.add_task(project_id, name),
            final(self)@.wf(),
            view_of(r) == final(self)@.project_with_id(project_id),
    {
        let ghost before = self@;
        proof {
            lemma_add_task_keeps_wf(before, project_id, name);
        }
        let pi = match find_project(&self.projects, project_id) {
            Some(pi) => pi,
            None => {
                return None;
            },
        };
        if self.next_task_id < u64::MAX {
            let id = self.next_task_id;
            self.store.insert_task(id, project_id, name.clone(), 0);
            self.projects[pi].tasks.push(
                Task { id, project_id, name, time_seconds: 0, done_at: None, archived_at: None },
            );
            self.next_task_id = id + 1;
            proof {
                let old_p = before.projects[pi as int];
                assert(projects_view(self.projects@) =~= before.projects.update(
                    pi as int,
                    ProjectView {
                        tasks: old_p.tasks.push(fresh_task(id, project_id, name)),
                        ..old_p
                    },
                ));
                lemma_same_ids_same_index(before.projects, self@.projects, project_id);
            }
        }
        Some(self.projects[pi].clone())
    }

    /// Archives a task of the first project with this id at `now` and returns
    /// the project. Returns nothing where no project has this id.
    ///
    /// The first task with this id leaves the project, its session ends
    /// without a commit, and its row is stamped with `now`; the task position
    /// falls back to the front where it would stand behind the end. Where the
    /// project holds no task with this id, nothing changes.
    pub fn remove_task(&mut self, project_id: u64, task_id: u64, now: u64) -> (r: Option<Project>)
        requires
            old(self)@.wf(),
        ensures
            final(self)@ == old(self)@.remove_task(project_id, task_id, now),
            final(self)@.wf(),
            view_of(r) == final(self)@.project_with_id(project_id),
    {
        let ghost before = self@;
        proof {
            lemma_remove_task_keeps_wf(before, project_id, task_id, now);
        }
        let pi = match find_project(&self.projects, project_id) {
            Some(pi) => pi,
            None => {
                return None;
            },
        };
        if let Some(ti) = find_task(&self.projects[pi].tasks, task_id) {
            if find_session(&self.sessions, task_id).is_some() {
                self.sessions = sessions_without_task(&self.sessions, task_id);
                self.store.remove_active_session(task_id);
            }
            self.store.update_task_archived(task_id, Some(now));
            self.projects[pi].tasks.remove(ti);
            if self.projects[pi].current_task_index >= self.projects[pi].tasks.len()
                && self.projects[pi].tasks.len() > 0 {
                self.projects[pi].current_task_index = 0;
            }
            let current = self.projects[pi].current_task_index;
            self.store.update_project_current_index(project_id, current);
            proof {
                let old_p = before.projects[pi as int];
                let tasks = old_p.tasks.remove(ti as int);
                assert(projects_view(self.projects@) =~= before.projects.update(
                    pi as int,
                    ProjectView {
                        tasks,
                        current_task_index: clamped(old_p.current_task_index, tasks.len()),
                        ..old_p
                    },
                ));
            }
        }
        proof {
            lemma_same_ids_same_index(before.projects, self@.projects, project_id);
        }
        Some(self.projects[pi].clone())
    }

    /// Renames the first task with this id in the first project with this id
    /// and returns the project. Returns nothing where no project has this id.
    pub fn rename_task(&mut self, project_id: u64, task_id: u64, new_name: String) -> (r: Option<Project>)
        requires
            old(self)@.wf(),
        ensures
            final(self)@ == old(self)@.rename_task(project_id, task_id, new_name),
            final(self)@.wf(),
            view_of(r) == final(self)@.project_with_id(project_id),
    {
        let ghost before = self@;
        proof {
            lemma_rename_task_keeps_wf(before, project_id, task_id, new_name);
        }
        let pi = match find_project(&self.projects, project_id) {
            Some(pi) => pi,
            None => {
                return None;
            },
        };
        if let Some(ti) = find_task(&self.projects[pi].tasks, task_id) {
            self.projects[pi].tasks[ti].name = new_name.clone();
            self.store.update_task_name(task_id, new_name);
            assert(projects_view(self.projects@) =~~= replace_task(
                before.projects,
                pi as int,
                ti as int,
                Task { name: new_name, ..before.projects[pi as int].tasks[ti as int] },
            ));
        }
        proof {
            lemma_same_ids_same_index(before.projects, self@.projects, project_id);
        }
        Some(self.projects[pi].clone())
    }

    /// Deletes a task row and its time entries from the store for good. The
    /// rotation stays as it is.
    pub fn delete_task_permanent(&mut self, task_id: u64) -> (r: bool)
        requires
            old(self)@.wf(),
        ensures
            final(self)@ == old(self)@.delete_task_permanent(task_id),
            final(self)@.wf(),
            r,
    {
        proof {
            lemma_delete_keeps_wf(self@, task_id);
        }
        self.store.delete_task_cascade(task_id);
        true
    }

    /// Deletes a project row, its task rows and its time entries from the
    /// store for good. The rotation stays as it is.
    pub fn delete_project_permanent(&mut self, project_id: u64) -> (r: bool)
        requires
            old(self)@.wf(),
        ensures
            final(self)@ == old(self)@.delete_project_permanent(project_id),
            final(self)@.wf(),
            r,
    {
        proof {
            lemma_delete_keeps_wf(self@, project_id);
        }
        self.store.delete_project_cascade(project_id);
        true
    }

    /// Wipes everything: every row, every project and session, and sets both
    /// counters back to 1. Returns the projects in rotation, which are none.
    pub fn reset_database(&mut self) -> (r: Vec<Project>)
        requires
            old(self)@.wf(),
        ensures
            final(self)@ == old(self)@.reset_database(),
            final(self)@.wf(),
            r@.len() == 0,
    {
        proof {
            lemma_reset_keeps_wf(self@);
        }
        self.store.apply(StoreWrite::Reset);
        self.projects = Vec::new();
        self.current_project_index = 0;
        self.next_project_id = 1;
        self.next_task_id = 1;
        self.sessions = Vec::new();
        assert(self@.projects =~= Seq::empty());
        Vec::new()
    }
}

} // verus!

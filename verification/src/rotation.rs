//! Which project and which task are current: rotation, selection, and the
//! marking of tasks as finished.

use vstd::prelude::*;
use vstd::arithmetic::div_mod::{
    lemma_fundamental_div_mod_converse, lemma_mod_pos_bound, lemma_small_mod,
};
use crate::engine::{
    find_project, find_task, project_index, replace_task, task_index, view_of, Engine, EngineView,
};
use crate::model::{projects_view, Project, ProjectView, Task};
use crate::store::{ProjectChange, StoreWrite, TaskChange};
use crate::validity::{
    lemma_rotate_project_keeps_wf, lemma_rotate_task_keeps_wf, lemma_same_ids_same_index,
    lemma_set_current_project_keeps_wf, lemma_toggle_task_done_keeps_wf,
};

verus! {

/// The position `k` steps behind `start` in a circle of `n` positions.
pub open spec fn circular(start: int, k: int, n: int) -> int {
    (start + k) % n
}

/// The position of the first unfinished task among those that stand `k`,
/// `k + 1`, ..., `tasks.len()` steps behind `start` in the circle of tasks.
pub open spec fn next_open_task(tasks: Seq<Task>, start: int, k: int) -> Option<int>
    decreases tasks.len() - k + 1,
{
    if tasks.len() == 0 || k > tasks.len() || k < 0 {
        None
    } else if tasks[circular(start, k, tasks.len() as int)].done_at is None {
        Some(circular(start, k, tasks.len() as int))
    } else {
        next_open_task(tasks, start, k + 1)
    }
}

/// The timestamp that marks a task as finished at `now`, or as unfinished.
pub open spec fn done_stamp(done: bool, now: u64) -> Option<u64> {
    if done {
        Some(now)
    } else {
        None
    }
}

/// A step in the circle stays inside it.
pub proof fn lemma_circular(start: int, k: int, n: int)
    requires
        0 <= start < n,
        0 <= k <= n,
    ensures
        circular(start, k, n) == if start + k < n {
            start + k
        } else {
            start + k - n
        },
        0 <= circular(start, k, n) < n,
{
    if start + k < n {
        lemma_small_mod((start + k) as nat, n as nat);
    } else {
        lemma_fundamental_div_mod_converse(start + k, n, 1, start + k - n);
    }
}

/// The task that a scan settles on is unfinished, and a scan from the first
/// step that settles on none has found every task finished.
pub proof fn lemma_next_open_task(tasks: Seq<Task>, start: int, k: int)
    requires
        0 <= start < tasks.len(),
        1 <= k <= tasks.len() + 1,
    ensures
        match next_open_task(tasks, start, k) {
            Some(t) => 0 <= t < tasks.len() && tasks[t].done_at is None,
            None => forall|j: int|
                k <= j <= tasks.len() ==> (#[trigger] tasks[circular(
                    start,
                    j,
                    tasks.len() as int,
                )]).done_at is Some,
        },
    decreases tasks.len() - k + 1,
{
    if k <= tasks.len() {
        lemma_circular(start, k, tasks.len() as int);
        if tasks[circular(start, k, tasks.len() as int)].done_at is Some {
            lemma_next_open_task(tasks, start, k + 1);
        }
    }
}

/// The task that a scan settles on stands in the list, wherever the scan
/// starts.
pub proof fn lemma_target_is_a_position(tasks: Seq<Task>, start: int, k: int)
    requires
        0 <= start,
        0 <= k,
    ensures
        next_open_task(tasks, start, k) matches Some(t) ==> 0 <= t < tasks.len(),
    decreases tasks.len() - k + 1,
{
    if !(tasks.len() == 0 || k > tasks.len()) {
        lemma_mod_pos_bound(start + k, tasks.len() as int);
        if tasks[circular(start, k, tasks.len() as int)].done_at is Some {
            lemma_target_is_a_position(tasks, start, k + 1);
        }
    }
}

/// Where the scan from the first step settles on no task, every task is
/// finished.
pub proof fn lemma_rotation_none_means_all_done(tasks: Seq<Task>, start: int)
    requires
        0 <= start < tasks.len(),
        next_open_task(tasks, start, 1) is None,
    ensures
        forall|i: int| 0 <= i < tasks.len() ==> (#[trigger] tasks[i]).done_at is Some,
{
    lemma_next_open_task(tasks, start, 1);
    let n = tasks.len() as int;
    assert forall|i: int| 0 <= i < n implies (#[trigger] tasks[i]).done_at is Some by {
        let j = if i > start {
            i - start
        } else {
            i - start + n
        };
        lemma_circular(start, j, n);
        assert(tasks[circular(start, j, n)].done_at is Some);
    }
}

impl EngineView {
    /// The state after the rotation moved on to the next project, in a
    /// circle. Without projects nothing changes.
    pub open spec fn rotate_project(self) -> EngineView {
        if self.projects.len() == 0 {
            self
        } else {
            let next = circular(self.current_project_index as int, 1, self.projects.len() as int) as usize;
            EngineView {
                current_project_index: next,
                store: self.store.apply(StoreWrite::SaveCurrentProjectIndex { index: next }),
                ..self
            }
        }
    }

    /// The state after the project at `index` was selected. The first
    /// project is selected where it stands; any other moves to the front of
    /// the rotation and is current there. A position outside the list changes
    /// nothing.
    pub open spec fn set_current_project(self, index: usize) -> EngineView {
        if index >= self.projects.len() {
            self
        } else {
            EngineView {
                projects: if index == 0 {
                    self.projects
                } else {
                    self.projects.remove(index as int).insert(0, self.projects[index as int])
                },
                current_project_index: 0,
                store: self.store.apply(StoreWrite::SaveCurrentProjectIndex { index: 0 }),
                ..self
            }
        }
    }

    /// The position of the task that a rotation of the current project moves
    /// to: the first unfinished task behind the current one, in a circle that
    /// ends with the current task itself.
    pub open spec fn rotation_target(self) -> Option<int> {
        match self.current_project() {
            None => None,
            Some(p) => next_open_task(p.tasks, p.current_task_index as int, 1),
        }
    }

    /// The state after the current project moved on to its next unfinished
    /// task. Where there is none, nothing changes.
    pub open spec fn rotate_task(self) -> EngineView {
        match self.rotation_target() {
            None => self,
            Some(t) => {
                let c = self.current_project_index as int;
                let p = self.projects[c];
                EngineView {
                    projects: self.projects.update(
                        c,
                        ProjectView { current_task_index: t as usize, ..p },
                    ),
                    store: self.store.apply(
                        StoreWrite::UpdateProject(
                            p.id,
                            ProjectChange::CurrentTaskIndex(t as usize),
                        ),
                    ),
                    ..self
                }
            },
        }
    }

    /// The task that a rotation of the current project returns.
    pub open spec fn rotated_task(self) -> Option<Task> {
        match self.rotation_target() {
            None => None,
            Some(t) => Some(self.projects[self.current_project_index as int].tasks[t]),
        }
    }

    /// The state after a task was marked as finished at `now`, or as
    /// unfinished. Where the first project with this id holds no task with
    /// this id, nothing changes.
    pub open spec fn toggle_task_done(self, project_id: u64, task_id: u64, done: bool, now: u64) -> EngineView {
        let stamp = done_stamp(done, now);
        match project_index(self.projects, project_id) {
            None => self,
            Some(pi) => match task_index(self.projects[pi].tasks, task_id) {
                None => self,
                Some(ti) => EngineView {
                    store: self.store.apply(
                        StoreWrite::UpdateTask(task_id, TaskChange::Done(stamp)),
                    ),
                    projects: replace_task(
                        self.projects,
                        pi,
                        ti,
                        Task { done_at: stamp, ..self.projects[pi].tasks[ti] },
                    ),
                    ..self
                },
            },
        }
    }
}

impl Engine {
    /// Moves the rotation on to the next project, in a circle, and returns
    /// the new position and the project there. Without projects it returns
    /// position 0 and no project.
    pub fn rotate_project(&mut self) -> (r: (usize, Option<Project>))
        requires
            old(self)@.wf(),
        ensures
            final(self)@ == old(self)@.rotate_project(),
            final(self)@.wf(),
            r.0 == (if old(self)@.projects.len() == 0 {
                0
            } else {
                final(self)@.current_project_index
            }),
            view_of(r.1) == final(self)@.current_project(),
    {
        let n = self.projects.len();
        if n == 0 {
            return (0, None);
        }
        proof {
            lemma_rotate_project_keeps_wf(self@);
            lemma_circular(self.current_project_index as int, 1, n as int);
        }
        let next: usize = if self.current_project_index + 1 < n {
            self.current_project_index + 1
        } else {
            0
        };
        self.current_project_index = next;
        self.store.save_current_project_index(next);
        (next, Some(self.projects[next].clone()))
    }

    /// Selects the project at `index` and returns the position of the current
    /// project. The first project is selected where it stands; any other
    /// moves to the front of the rotation. A position outside the list
    /// changes nothing.
    pub fn set_current_project(&mut self, index: usize) -> (r: usize)
        requires
            old(self)@.wf(),
        ensures
            final(self)@ == old(self)@.set_current_project(index),
            final(self)@.wf(),
            r == final(self)@.current_project_index,
    {
        if index >= self.projects.len() {
            return self.current_project_index;
        }
        let ghost before = self@;
        proof {
            lemma_set_current_project_keeps_wf(before, index);
        }
        if index > 0 {
            let p = self.projects.remove(index);
            self.projects.insert(0, p);
            assert(projects_view(self.projects@) =~= before.projects.remove(index as int).insert(
                0,
                before.projects[index as int],
            ));
        }
        self.current_project_index = 0;
        self.store.save_current_project_index(0);
        0
    }

    /// Moves the current project on to its next unfinished task and returns
    /// that task.
    ///
    /// The tasks behind the current one are tried in a circle that ends with
    /// the current task itself; a finished task is passed over. Where every
    /// task is finished, or there is no project or no task, nothing changes
    /// and nothing is returned.
    pub fn rotate_task(&mut self) -> (r: Option<Task>)
        requires
            old(self)@.wf(),
        ensures
            final(self)@ == old(self)@.rotate_task(),
            final(self)@.wf(),
            r == old(self)@.rotated_task(),
    {
        if self.projects.len() == 0 {
            return None;
        }
        let c = self.current_project_index;
        let n = self.projects[c].tasks.len();
        if n == 0 {
            return None;
        }
        let ghost before = self@;
        let ghost tasks = before.projects[c as int].tasks;
        let start = self.projects[c].current_task_index;
        proof {
            assert(before.projects[c as int].index_valid());
            lemma_rotate_task_keeps_wf(before);
        }
        let mut k: usize = 0;
        while k < n
            invariant
                k <= n,
                self@ == before,
                before == old(self)@,
                c == self.current_project_index,
                c < self.projects.len(),
                n == tasks.len(),
                n > 0,
                start < n,
                tasks == before.projects[c as int].tasks,
                tasks == self.projects@[c as int].tasks@,
                start == before.projects[c as int].current_task_index,
                before.wf(),
                before.rotate_task().wf(),
                next_open_task(tasks, start as int, 1) == next_open_task(
                    tasks,
                    start as int,
                    k + 1,
                ),
            decreases n - k,
        {
            let i: usize = k + 1;
            proof {
                lemma_circular(start as int, i as int, n as int);
            }
            let next: usize = if i < n - start {
                start + i
            } else {
                i - (n - start)
            };
            assert(next as int == circular(start as int, i as int, n as int));
            if self.projects[c].tasks[next].done_at.is_none() {
                assert(next_open_task(tasks, start as int, i as int) == Some(next as int));
                assert(before.rotation_target() == Some(next as int));
                let id = self.projects[c].id;
                self.projects[c].current_task_index = next;
                self.store.update_project_current_index(id, next);
                assert(self@.projects =~= before.projects.update(
                    c as int,
                    ProjectView { current_task_index: next, ..before.projects[c as int] },
                ));
                return Some(self.projects[c].tasks[next].clone());
            }
            k += 1;
        }
        None
    }

    /// Marks a task as finished at `now`, or as unfinished, and returns its
    /// project. Where the first project with this id holds no task with this
    /// id, nothing changes; where no project has this id, nothing is
    /// returned.
    pub fn toggle_task_done(&mut self, project_id: u64, task_id: u64, done: bool, now: u64) -> (r: Option<Project>)
        requires
            old(self)@.wf(),
        ensures
            final(self)@ == old(self)@.toggle_task_done(project_id, task_id, done, now),
            final(self)@.wf(),
            view_of(r) == final(self)@.project_with_id(project_id),
    {
        let ghost before = self@;
        proof {
            lemma_toggle_task_done_keeps_wf(before, project_id, task_id, done, now);
        }
        let stamp: Option<u64> = if done {
            Some(now)
        } else {
            None
        };
        let pi = match find_project(&self.projects, project_id) {
            Some(pi) => pi,
            None => {
                return None;
            },
        };
        if let Some(ti) = find_task(&self.projects[pi].tasks, task_id) {
            self.store.update_task_done(task_id, stamp);
            self.projects[pi].tasks[ti].done_at = stamp;
            proof {
                assert(self@.projects =~~= replace_task(
                    before.projects,
                    pi as int,
                    ti as int,
                    Task { done_at: stamp, ..before.projects[pi as int].tasks[ti as int] },
                ));
                lemma_same_ids_same_index(before.projects, self@.projects, project_id);
            }
        }
        Some(self.projects[pi].clone())
    }
}

} // verus!

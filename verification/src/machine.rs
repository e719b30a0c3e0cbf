//! The engine as a machine that takes one command after another, and what
//! holds of every state that it reaches.

use vstd::prelude::*;
use crate::engine::{
    project_has_id, project_index, session_index, session_of_task, sessions_distinct, task_has_id,
    task_index, EngineView,
};
use crate::laws::lemma_sessions_dropped_keeps_rows;
use crate::model::{ActiveTracking, ProjectView};
use crate::projects::sessions_dropped;
use crate::queries::{
    distinct_sessions, loaded_project, project_row_active, task_row_has_id, task_row_visible,
};
use crate::rotation::{done_stamp, lemma_target_is_a_position};
use crate::schema::{lemma_ids_below_next, lemma_visible_projects_below};
use crate::seq_util::{first_match, lemma_filter_members, lemma_first_match_is_first};
use crate::store::{
    task_id_below, task_row_is_not, task_row_not_of_project, ProjectChange, ProjectRow, StoreView,
    StoreWrite, TaskChange, TaskRow,
};
use crate::tracking::elapsed_at;
use crate::validity::{
    lemma_add_project_keeps_wf, lemma_add_task_keeps_wf, lemma_apply_keeps_order,
    lemma_delete_keeps_wf, lemma_remove_project_keeps_wf, lemma_remove_task_keeps_wf,
    lemma_rename_project_keeps_wf, lemma_rename_task_keeps_wf, lemma_reset_keeps_wf,
    lemma_restore_project_keeps_wf, lemma_restore_task_keeps_wf, lemma_rotate_project_keeps_wf,
    lemma_rotate_task_keeps_wf, lemma_set_current_project_keeps_wf, lemma_start_tracking_keeps_wf,
    lemma_stop_tracking_keeps_wf, lemma_toggle_task_done_keeps_wf, lemma_visible_projects_sound,
};

verus! {

/// A command that changes the state of the engine.
pub enum Command {
    AddProject { name: String },
    RemoveProject { project_id: u64 },
    RenameProject { project_id: u64, new_name: String },
    RotateProject,
    SetCurrentProject { index: usize },
    RotateTask,
    AddTask { project_id: u64, name: String },
    RemoveTask { project_id: u64, task_id: u64 },
    RenameTask { project_id: u64, task_id: u64, new_name: String },
    ToggleTaskDone { project_id: u64, task_id: u64, done: bool },
    StartTracking { project_id: u64, task_id: u64, allow_multiple: bool },
    StopTracking { only: Option<u64> },
    RestoreProject { project_id: u64 },
    RestoreTask { project_id: u64, task_id: u64 },
    DeleteTaskPermanent { task_id: u64 },
    DeleteProjectPermanent { project_id: u64 },
    ResetDatabase,
}

/// A finished-at stamp is in order at `now`: there is none, or it is a
/// second after the start of the epoch and not after `now`.
pub open spec fn stamp_in_order(stamp: Option<u64>, now: u64) -> bool {
    match stamp {
        None => true,
        Some(d) => 0 < d <= now,
    }
}

impl StoreView {
    /// Every task row carries a finished-at stamp that is in order at `now`.
    pub open spec fn done_stamps_in_order(self, now: u64) -> bool {
        forall|i: int|
            0 <= i < self.tasks.len() ==> stamp_in_order((#[trigger] self.tasks[i]).task.done_at, now)
    }
}

/// Every task of the projects carries a finished-at stamp that is in order
/// at `now`.
pub open spec fn project_stamps_in_order(ps: Seq<ProjectView>, now: u64) -> bool {
    forall|i: int, j: int|
        0 <= i < ps.len() && 0 <= j < ps[i].tasks.len() ==> stamp_in_order(
            (#[trigger] ps[i].tasks[j]).done_at,
            now,
        )
}

impl EngineView {
    /// The state after a command was carried out at `now`.
    pub open spec fn step(self, command: Command, now: u64) -> EngineView {
        match command {
            Command::AddProject { name } => self.add_project(name),
            Command::RemoveProject { project_id } => self.remove_project(project_id, now),
            Command::RenameProject { project_id, new_name } => self.rename_project(
                project_id,
                new_name,
            ),
            Command::RotateProject => self.rotate_project(),
            Command::SetCurrentProject { index } => self.set_current_project(index),
            Command::RotateTask => self.rotate_task(),
            Command::AddTask { project_id, name } => self.add_task(project_id, name),
            Command::RemoveTask { project_id, task_id } => self.remove_task(project_id, task_id, now),
            Command::RenameTask { project_id, task_id, new_name } => self.rename_task(
                project_id,
                task_id,
                new_name,
            ),
            Command::ToggleTaskDone { project_id, task_id, done } => self.toggle_task_done(
                project_id,
                task_id,
                done,
                now,
            ),
            Command::StartTracking { project_id, task_id, allow_multiple } => self.start_tracking(
                project_id,
                task_id,
                allow_multiple,
                now,
            ),
            Command::StopTracking { only } => self.stop_tracking(only, now),
            Command::RestoreProject { project_id } => self.restore_project(project_id, now),
            Command::RestoreTask { project_id, task_id } => self.restore_task(project_id, task_id),
            Command::DeleteTaskPermanent { task_id } => self.delete_task_permanent(task_id),
            Command::DeleteProjectPermanent { project_id } => self.delete_project_permanent(
                project_id,
            ),
            Command::ResetDatabase => self.reset_database(),
        }
    }

    /// Every task, in the rotation and in the store, carries a finished-at
    /// stamp that is in order at `now`.
    pub open spec fn done_stamps_in_order(self, now: u64) -> bool {
        &&& project_stamps_in_order(self.projects, now)
        &&& self.store.done_stamps_in_order(now)
    }
}

/// A write that sets no finished-at stamp out of order.
pub open spec fn write_in_order(w: StoreWrite, now: u64) -> bool {
    match w {
        StoreWrite::UpdateTask(_, TaskChange::Done(stamp)) => stamp_in_order(stamp, now),
        StoreWrite::MigrateLegacyFlags { now: at } => 0 < at <= now,
        _ => true,
    }
}

/// A write that sets no stamp out of order leaves the stamps of the store in
/// order.
pub proof fn lemma_apply_keeps_stamps(s: StoreView, w: StoreWrite, now: u64)
    requires
        s.done_stamps_in_order(now),
        write_in_order(w, now),
    ensures
        s.apply(w).done_stamps_in_order(now),
{
    let a = s.apply(w);
    match w {
        StoreWrite::DeleteProject { id } => {
            lemma_filter_members(s.tasks, task_row_not_of_project(id));
            assert forall|i: int| 0 <= i < a.tasks.len() implies stamp_in_order(
                (#[trigger] a.tasks[i]).task.done_at,
                now,
            ) by {
                assert(a.tasks.contains(a.tasks[i]));
                assert(s.tasks.contains(a.tasks[i]));
                let k = choose|k: int| 0 <= k < s.tasks.len() && s.tasks[k] == a.tasks[i];
                assert(stamp_in_order(s.tasks[k].task.done_at, now));
            }
        },
        StoreWrite::DeleteTask { id } => {
            lemma_filter_members(s.tasks, task_row_is_not(id));
            assert forall|i: int| 0 <= i < a.tasks.len() implies stamp_in_order(
                (#[trigger] a.tasks[i]).task.done_at,
                now,
            ) by {
                assert(a.tasks.contains(a.tasks[i]));
                assert(s.tasks.contains(a.tasks[i]));
                let k = choose|k: int| 0 <= k < s.tasks.len() && s.tasks[k] == a.tasks[i];
                assert(stamp_in_order(s.tasks[k].task.done_at, now));
            }
        },
        StoreWrite::InsertTask { id, project_id, name, time_seconds } => {
            assert forall|i: int| 0 <= i < a.tasks.len() implies stamp_in_order(
                (#[trigger] a.tasks[i]).task.done_at,
                now,
            ) by {
                if a.tasks != s.tasks {
                    let pos = s.tasks.filter(task_id_below(id)).len() as int;
                    s.tasks.lemma_filter_len(task_id_below(id));
                    if i < pos {
                        assert(a.tasks[i] == s.tasks[i]);
                    } else if i > pos {
                        assert(a.tasks[i] == s.tasks[i - 1]);
                    }
                }
            }
        },
        StoreWrite::UpdateTask(id, change) => {
            assert forall|i: int| 0 <= i < a.tasks.len() implies stamp_in_order(
                (#[trigger] a.tasks[i]).task.done_at,
                now,
            ) by {
                assert(stamp_in_order(s.tasks[i].task.done_at, now));
            }
        },
        StoreWrite::SetProjectTasksArchived { project_id, archived_at } => {
            assert forall|i: int| 0 <= i < a.tasks.len() implies stamp_in_order(
                (#[trigger] a.tasks[i]).task.done_at,
                now,
            ) by {
                assert(stamp_in_order(s.tasks[i].task.done_at, now));
            }
        },
        StoreWrite::MigrateLegacyFlags { now: at } => {
            assert forall|i: int| 0 <= i < a.tasks.len() implies stamp_in_order(
                (#[trigger] a.tasks[i]).task.done_at,
                now,
            ) by {
                assert(stamp_in_order(s.tasks[i].task.done_at, now));
            }
        },
        _ => {},
    }
}

/// Stamps that are in order stay in order as time goes on.
pub proof fn lemma_stamps_stay_in_order(s: EngineView, now: u64, later: u64)
    requires
        s.done_stamps_in_order(now),
        now <= later,
    ensures
        s.done_stamps_in_order(later),
{
    assert forall|i: int, j: int|
        0 <= i < s.projects.len() && 0 <= j < s.projects[i].tasks.len() implies stamp_in_order(
        (#[trigger] s.projects[i].tasks[j]).done_at,
        later,
    ) by {
        assert(stamp_in_order(s.projects[i].tasks[j].done_at, now));
    }
    assert forall|i: int| 0 <= i < s.store.tasks.len() implies stamp_in_order(
        (#[trigger] s.store.tasks[i]).task.done_at,
        later,
    ) by {
        assert(stamp_in_order(s.store.tasks[i].task.done_at, now));
    }
}

/// Replacing a project by one whose stamps are in order keeps the stamps of
/// the projects in order.
pub proof fn lemma_update_keeps_stamps(ps: Seq<ProjectView>, pi: int, p: ProjectView, now: u64)
    requires
        0 <= pi < ps.len(),
        project_stamps_in_order(ps, now),
        forall|j: int| 0 <= j < p.tasks.len() ==> stamp_in_order((#[trigger] p.tasks[j]).done_at, now),
    ensures
        project_stamps_in_order(ps.update(pi, p), now),
{
    let after = ps.update(pi, p);
    assert forall|i: int, j: int|
        0 <= i < after.len() && 0 <= j < after[i].tasks.len() implies stamp_in_order(
        (#[trigger] after[i].tasks[j]).done_at,
        now,
    ) by {
        if i != pi {
            assert(stamp_in_order(ps[i].tasks[j].done_at, now));
        }
    }
}

/// A project that enters the rotation from a store whose stamps are in order
/// has its stamps in order.
pub proof fn lemma_loaded_project_stamps(tasks: Seq<TaskRow>, row: ProjectRow, at: u64, now: u64)
    requires
        forall|i: int| 0 <= i < tasks.len() ==> stamp_in_order((#[trigger] tasks[i]).task.done_at, now),
    ensures
        forall|j: int|
            0 <= j < loaded_project(tasks, row, at).tasks.len() ==> stamp_in_order(
                (#[trigger] loaded_project(tasks, row, at).tasks[j]).done_at,
                now,
            ),
{
    let p = loaded_project(tasks, row, at);
    let f = tasks.filter(task_row_visible(row.id, at));
    lemma_filter_members(tasks, task_row_visible(row.id, at));
    assert forall|j: int| 0 <= j < p.tasks.len() implies stamp_in_order(
        (#[trigger] p.tasks[j]).done_at,
        now,
    ) by {
        assert(f.contains(f[j]));
        assert(tasks.contains(f[j]));
        let k = choose|k: int| 0 <= k < tasks.len() && tasks[k] == f[j];
        assert(stamp_in_order(tasks[k].task.done_at, now));
    }
}

/// Committing a session keeps the stamps in order.
pub proof fn lemma_commit_keeps_stamps(s: EngineView, session: ActiveTracking, now: u64)
    requires
        s.done_stamps_in_order(now),
    ensures
        s.commit(session, now).done_stamps_in_order(now),
{
    let after = s.commit(session, now);
    if after != s {
        lemma_first_match_is_first(s.projects, project_has_id(session.project_id));
        let pi = project_index(s.projects, session.project_id).unwrap();
        lemma_first_match_is_first(s.projects[pi].tasks, task_has_id(session.task_id));
        let ti = task_index(s.projects[pi].tasks, session.task_id).unwrap();
        let p = after.projects[pi];
        assert forall|j: int| 0 <= j < p.tasks.len() implies stamp_in_order(
            (#[trigger] p.tasks[j]).done_at,
            now,
        ) by {
            assert(stamp_in_order(s.projects[pi].tasks[j].done_at, now));
        }
        lemma_update_keeps_stamps(s.projects, pi, p, now);
        let total = p.tasks[ti].time_seconds;
        let w1 = StoreWrite::UpdateTask(s.projects[pi].tasks[ti].id, TaskChange::Time(total));
        lemma_apply_keeps_stamps(s.store, w1, now);
        let w2 = StoreWrite::InsertTimeEntry {
            project_id: session.project_id,
            task_id: session.task_id,
            start_time: session.started_at,
            end_time: now,
            duration_seconds: elapsed_at(session.started_at, now),
        };
        lemma_apply_keeps_stamps(s.store.apply(w1), w2, now);
    }
}

/// Committing a list of sessions keeps the stamps in order.
pub proof fn lemma_commit_all_keeps_stamps(s: EngineView, ss: Seq<ActiveTracking>, now: u64)
    requires
        s.done_stamps_in_order(now),
    ensures
        s.commit_all(ss, now).done_stamps_in_order(now),
    decreases ss.len(),
{
    if ss.len() > 0 {
        lemma_commit_all_keeps_stamps(s, ss.drop_last(), now);
        lemma_commit_keeps_stamps(s.commit_all(ss.drop_last(), now), ss.last(), now);
    }
}

/// Stopping every session keeps the stamps in order.
pub proof fn lemma_stop_all_keeps_stamps(s: EngineView, now: u64)
    requires
        s.done_stamps_in_order(now),
    ensures
        s.stop_all(now).done_stamps_in_order(now),
{
    lemma_commit_all_keeps_stamps(s, s.sessions, now);
    lemma_apply_keeps_stamps(s.commit_all(s.sessions, now).store, StoreWrite::ClearSessions, now);
}

/// Opening a session keeps the stamps in order.
pub proof fn lemma_begin_keeps_stamps(s: EngineView, project_id: u64, task_id: u64, now: u64)
    requires
        s.done_stamps_in_order(now),
    ensures
        s.begin(project_id, task_id, now).done_stamps_in_order(now),
{
    let session = ActiveTracking { project_id, task_id, started_at: now };
    lemma_apply_keeps_stamps(s.store, StoreWrite::AddSession { session }, now);
}

/// Adding a project keeps the stamps in order.
pub proof fn lemma_add_project_keeps_stamps(s: EngineView, name: String, now: u64)
    requires
        s.done_stamps_in_order(now),
    ensures
        s.add_project(name).done_stamps_in_order(now),
{
    let after = s.add_project(name);
    if after != s {
        lemma_apply_keeps_stamps(
            s.store,
            StoreWrite::InsertProject { id: s.next_project_id, name },
            now,
        );
        assert forall|i: int, j: int|
            0 <= i < after.projects.len() && 0 <= j
                < after.projects[i].tasks.len() implies stamp_in_order(
            (#[trigger] after.projects[i].tasks[j]).done_at,
            now,
        ) by {
            if i < s.projects.len() {
                assert(stamp_in_order(s.projects[i].tasks[j].done_at, now));
            }
        }
    }

}

/// Archiving a project keeps the stamps in order.
pub proof fn lemma_remove_project_keeps_stamps(s: EngineView, project_id: u64, now: u64)
    requires
        s.done_stamps_in_order(now),
    ensures
        s.remove_project(project_id, now).done_stamps_in_order(now),
{
    let after = s.remove_project(project_id, now);
    lemma_first_match_is_first(s.projects, project_has_id(project_id));
    match project_index(s.projects, project_id) {
        Some(pos) => {
            let s0 = sessions_dropped(s.store, s.sessions, project_id);
            lemma_sessions_dropped_keeps_rows(s.store, s.sessions, project_id);
            assert(s0.done_stamps_in_order(now));
            let w1 = StoreWrite::SetProjectTasksArchived {
                project_id,
                archived_at: Some(now),
            };
            lemma_apply_keeps_stamps(s0, w1, now);
            let w2 = StoreWrite::UpdateProject(
                project_id,
                ProjectChange::Archived(Some(now)),
            );
            lemma_apply_keeps_stamps(s0.apply(w1), w2, now);
            let w3 = StoreWrite::SaveCurrentProjectIndex {
                index: after.current_project_index,
            };
            lemma_apply_keeps_stamps(s0.apply(w1).apply(w2), w3, now);
            assert forall|i: int, j: int|
                0 <= i < after.projects.len() && 0 <= j
                    < after.projects[i].tasks.len() implies stamp_in_order(
                (#[trigger] after.projects[i].tasks[j]).done_at,
                now,
            ) by {
                if i < pos {
                    assert(stamp_in_order(s.projects[i].tasks[j].done_at, now));
                } else {
                    assert(stamp_in_order(s.projects[i + 1].tasks[j].done_at, now));
                }
            }
        },
        None => {},
    }

}

/// Renaming a project keeps the stamps in order.
pub proof fn lemma_rename_project_keeps_stamps(s: EngineView, project_id: u64, new_name: String, now: u64)
    requires
        s.done_stamps_in_order(now),
    ensures
        s.rename_project(project_id, new_name).done_stamps_in_order(now),
{
    let after = s.rename_project(project_id, new_name);
    lemma_first_match_is_first(s.projects, project_has_id(project_id));
    match project_index(s.projects, project_id) {
        Some(pi) => {
            lemma_apply_keeps_stamps(
                s.store,
                StoreWrite::UpdateProject(
                    project_id,
                    ProjectChange::Name(new_name),
                ),
                now,
            );
            let p = after.projects[pi];
            assert forall|j: int| 0 <= j < p.tasks.len() implies stamp_in_order(
                (#[trigger] p.tasks[j]).done_at,
                now,
            ) by {
                assert(stamp_in_order(s.projects[pi].tasks[j].done_at, now));
            }
            lemma_update_keeps_stamps(s.projects, pi, p, now);
        },
        None => {},
    }

}

/// Rotating the projects keeps the stamps in order.
pub proof fn lemma_rotate_project_keeps_stamps(s: EngineView, now: u64)
    requires
        s.done_stamps_in_order(now),
    ensures
        s.rotate_project().done_stamps_in_order(now),
{
    let after = s.rotate_project();
    if after != s {
        lemma_apply_keeps_stamps(
            s.store,
            StoreWrite::SaveCurrentProjectIndex { index: after.current_project_index },
            now,
        );
    }

}

/// Selecting a project keeps the stamps in order.
pub proof fn lemma_set_current_project_keeps_stamps(s: EngineView, index: usize, now: u64)
    requires
        s.done_stamps_in_order(now),
    ensures
        s.set_current_project(index).done_stamps_in_order(now),
{
    let after = s.set_current_project(index);
    if after != s {
        lemma_apply_keeps_stamps(
            s.store,
            StoreWrite::SaveCurrentProjectIndex { index: 0 },
            now,
        );
        assert forall|i: int, j: int|
            0 <= i < after.projects.len() && 0 <= j
                < after.projects[i].tasks.len() implies stamp_in_order(
            (#[trigger] after.projects[i].tasks[j]).done_at,
            now,
        ) by {
            if index == 0 {
                assert(stamp_in_order(s.projects[i].tasks[j].done_at, now));
            } else if i == 0 {
                assert(stamp_in_order(s.projects[index as int].tasks[j].done_at, now));
            } else if i <= index {
                assert(stamp_in_order(s.projects[i - 1].tasks[j].done_at, now));
            } else {
                assert(stamp_in_order(s.projects[i].tasks[j].done_at, now));
            }
        }
    }

}

/// Rotating the tasks keeps the stamps in order.
pub proof fn lemma_rotate_task_keeps_stamps(s: EngineView, now: u64)
    requires
        s.done_stamps_in_order(now),
    ensures
        s.rotate_task().done_stamps_in_order(now),
{
    let after = s.rotate_task();
    match s.rotation_target() {
        Some(t) => {
            let c = s.current_project_index as int;
            lemma_target_is_a_position(
                s.projects[c].tasks,
                s.projects[c].current_task_index as int,
                1,
            );
            let p = after.projects[c];
            lemma_apply_keeps_stamps(
                s.store,
                StoreWrite::UpdateProject(
                    s.projects[c].id,
                    ProjectChange::CurrentTaskIndex(t as usize),
                ),
                now,
            );
            assert forall|j: int| 0 <= j < p.tasks.len() implies stamp_in_order(
                (#[trigger] p.tasks[j]).done_at,
                now,
            ) by {
                assert(stamp_in_order(s.projects[c].tasks[j].done_at, now));
            }
            lemma_update_keeps_stamps(s.projects, c, p, now);
        },
        None => {},
    }
}

/// Adding a task keeps the stamps in order.
pub proof fn lemma_add_task_keeps_stamps(s: EngineView, project_id: u64, name: String, now: u64)
    requires
        s.done_stamps_in_order(now),
    ensures
        s.add_task(project_id, name).done_stamps_in_order(now),
{
    let after = s.add_task(project_id, name);
    lemma_first_match_is_first(s.projects, project_has_id(project_id));
    if after != s {
        let pi = project_index(s.projects, project_id).unwrap();
        lemma_apply_keeps_stamps(
            s.store,
            StoreWrite::InsertTask {
                id: s.next_task_id,
                project_id,
                name,
                time_seconds: 0,
            },
            now,
        );
        let p = after.projects[pi];
        assert forall|j: int| 0 <= j < p.tasks.len() implies stamp_in_order(
            (#[trigger] p.tasks[j]).done_at,
            now,
        ) by {
            if j < s.projects[pi].tasks.len() {
                assert(stamp_in_order(s.projects[pi].tasks[j].done_at, now));
            }
        }
        lemma_update_keeps_stamps(s.projects, pi, p, now);
    }

}

/// Archiving a task keeps the stamps in order.
pub proof fn lemma_remove_task_keeps_stamps(s: EngineView, project_id: u64, task_id: u64, now: u64)
    requires
        s.done_stamps_in_order(now),
    ensures
        s.remove_task(project_id, task_id, now).done_stamps_in_order(now),
{
    let after = s.remove_task(project_id, task_id, now);
    lemma_first_match_is_first(s.projects, project_has_id(project_id));
    match project_index(s.projects, project_id) {
        Some(pi) => {
            let running = session_index(s.sessions, task_id) is Some;
            let store = if running {
                s.store.apply(StoreWrite::RemoveSession { task_id })
            } else {
                s.store
            };
            lemma_apply_keeps_stamps(s.store, StoreWrite::RemoveSession { task_id }, now);
            lemma_first_match_is_first(s.projects[pi].tasks, task_has_id(task_id));
            match task_index(s.projects[pi].tasks, task_id) {
                Some(ti) => {
                    let w1 = StoreWrite::UpdateTask(task_id, TaskChange::Archived(Some(now)));
                    lemma_apply_keeps_stamps(store, w1, now);
                    let p = after.projects[pi];
                    let w2 = StoreWrite::UpdateProject(
                        project_id,
                        ProjectChange::CurrentTaskIndex(
                            p.current_task_index,
                        ),
                    );
                    lemma_apply_keeps_stamps(store.apply(w1), w2, now);
                    assert forall|j: int| 0 <= j < p.tasks.len() implies stamp_in_order(
                        (#[trigger] p.tasks[j]).done_at,
                        now,
                    ) by {
                        if j < ti {
                            assert(stamp_in_order(s.projects[pi].tasks[j].done_at, now));
                        } else {
                            assert(stamp_in_order(s.projects[pi].tasks[j + 1].done_at, now));
                        }
                    }
                    lemma_update_keeps_stamps(s.projects, pi, p, now);
                },
                None => {},
            }
        },
        None => {},
    }

}

/// Renaming a task keeps the stamps in order.
pub proof fn lemma_rename_task_keeps_stamps(s: EngineView, project_id: u64, task_id: u64, new_name: String, now: u64)
    requires
        s.done_stamps_in_order(now),
    ensures
        s.rename_task(project_id, task_id, new_name).done_stamps_in_order(now),
{
    let after = s.rename_task(project_id, task_id, new_name);
    lemma_first_match_is_first(s.projects, project_has_id(project_id));
    match project_index(s.projects, project_id) {
        Some(pi) => {
            lemma_first_match_is_first(s.projects[pi].tasks, task_has_id(task_id));
            match task_index(s.projects[pi].tasks, task_id) {
                Some(ti) => {
                    lemma_apply_keeps_stamps(
                        s.store,
                        StoreWrite::UpdateTask(task_id, TaskChange::Name(new_name)),
                        now,
                    );
                    let p = after.projects[pi];
                    assert forall|j: int| 0 <= j < p.tasks.len() implies stamp_in_order(
                        (#[trigger] p.tasks[j]).done_at,
                        now,
                    ) by {
                        assert(stamp_in_order(s.projects[pi].tasks[j].done_at, now));
                    }
                    lemma_update_keeps_stamps(s.projects, pi, p, now);
                },
                None => {},
            }
        },
        None => {},
    }

}

/// Marking a task as finished at `now`, or as unfinished, keeps the stamps in order.
pub proof fn lemma_toggle_task_done_keeps_stamps(s: EngineView, project_id: u64, task_id: u64, done: bool, now: u64)
    requires
        s.done_stamps_in_order(now),
        now > 0,
    ensures
        s.toggle_task_done(project_id, task_id, done, now).done_stamps_in_order(now),
{
    let after = s.toggle_task_done(project_id, task_id, done, now);
    let stamp = done_stamp(done, now);
    lemma_apply_keeps_stamps(
        s.store,
        StoreWrite::UpdateTask(task_id, TaskChange::Done(stamp)),
        now,
    );
    lemma_first_match_is_first(s.projects, project_has_id(project_id));
    match project_index(s.projects, project_id) {
        Some(pi) => {
            lemma_first_match_is_first(s.projects[pi].tasks, task_has_id(task_id));
            match task_index(s.projects[pi].tasks, task_id) {
                Some(ti) => {
                    let p = after.projects[pi];
                    assert forall|j: int| 0 <= j < p.tasks.len() implies stamp_in_order(
                        (#[trigger] p.tasks[j]).done_at,
                        now,
                    ) by {
                        assert(stamp_in_order(s.projects[pi].tasks[j].done_at, now));
                    }
                    lemma_update_keeps_stamps(s.projects, pi, p, now);
                },
                None => {},
            }
        },
        None => {},
    }

}

/// Starting a session keeps the stamps in order.
pub proof fn lemma_start_tracking_keeps_stamps(s: EngineView, project_id: u64, task_id: u64, allow_multiple: bool, now: u64)
    requires
        s.done_stamps_in_order(now),
    ensures
        s.start_tracking(project_id, task_id, allow_multiple, now).done_stamps_in_order(now),
{
    let after = s.start_tracking(project_id, task_id, allow_multiple, now);
    if session_index(s.sessions, task_id) is Some {
    } else if !allow_multiple && s.sessions.len() > 0 {
        lemma_stop_all_keeps_stamps(s, now);
        lemma_begin_keeps_stamps(s.stop_all(now), project_id, task_id, now);
    } else {
        lemma_begin_keeps_stamps(s, project_id, task_id, now);
    }

}

/// Stopping sessions keeps the stamps in order.
pub proof fn lemma_stop_tracking_keeps_stamps(s: EngineView, only: Option<u64>, now: u64)
    requires
        s.done_stamps_in_order(now),
    ensures
        s.stop_tracking(only, now).done_stamps_in_order(now),
{
    let after = s.stop_tracking(only, now);
    match only {
        Some(t) => {
            lemma_first_match_is_first(s.sessions, session_of_task(t));
            match session_index(s.sessions, t) {
                Some(i) => {
                    lemma_commit_keeps_stamps(s, s.sessions[i], now);
                    lemma_apply_keeps_stamps(
                        s.commit(s.sessions[i], now).store,
                        StoreWrite::RemoveSession { task_id: t },
                        now,
                    );
                },
                None => {},
            }
        },
        None => {
            if s.sessions.len() > 0 {
                lemma_stop_all_keeps_stamps(s, now);
            }
        },
    }

}

/// Restoring a project keeps the stamps in order.
pub proof fn lemma_restore_project_keeps_stamps(s: EngineView, project_id: u64, now: u64)
    requires
        s.done_stamps_in_order(now),
    ensures
        s.restore_project(project_id, now).done_stamps_in_order(now),
{
    let after = s.restore_project(project_id, now);
    if after != s {
        let w1 = StoreWrite::UpdateProject(project_id, ProjectChange::Archived(None));
        let w2 = StoreWrite::SetProjectTasksArchived { project_id, archived_at: None };
        lemma_apply_keeps_stamps(s.store, w1, now);
        lemma_apply_keeps_stamps(s.store.apply(w1), w2, now);
        let row = ProjectRow { archived_at: None, ..s.store.project_row(project_id).unwrap() };
        lemma_loaded_project_stamps(after.store.tasks, row, now, now);
        assert forall|i: int, j: int|
            0 <= i < after.projects.len() && 0 <= j
                < after.projects[i].tasks.len() implies stamp_in_order(
            (#[trigger] after.projects[i].tasks[j]).done_at,
            now,
        ) by {
            if i < s.projects.len() {
                assert(stamp_in_order(s.projects[i].tasks[j].done_at, now));
            }
        }
    }
}

/// Restoring a task keeps the stamps in order.
pub proof fn lemma_restore_task_keeps_stamps(s: EngineView, project_id: u64, task_id: u64, now: u64)
    requires
        s.done_stamps_in_order(now),
    ensures
        s.restore_task(project_id, task_id).done_stamps_in_order(now),
{
    if s.can_restore_task(project_id, task_id) {
        let after = s.restore_task(project_id, task_id);
        lemma_apply_keeps_stamps(
            s.store,
            StoreWrite::UpdateTask(task_id, TaskChange::Archived(None)),
            now,
        );
        lemma_first_match_is_first(s.projects, project_has_id(project_id));
        lemma_first_match_is_first(s.store.tasks, task_row_has_id(task_id));
        let pi = project_index(s.projects, project_id).unwrap();
        let k = first_match(s.store.tasks, task_row_has_id(task_id)).unwrap();
        assert(stamp_in_order(s.store.tasks[k].task.done_at, now));
        let p = after.projects[pi];
        assert forall|j: int| 0 <= j < p.tasks.len() implies stamp_in_order(
            (#[trigger] p.tasks[j]).done_at,
            now,
        ) by {
            if j < s.projects[pi].tasks.len() {
                assert(stamp_in_order(s.projects[pi].tasks[j].done_at, now));
            }
        }
        lemma_update_keeps_stamps(s.projects, pi, p, now);
    }
}

/// Deleting a task for good keeps the stamps in order.
pub proof fn lemma_delete_task_permanent_keeps_stamps(s: EngineView, task_id: u64, now: u64)
    requires
        s.done_stamps_in_order(now),
    ensures
        s.delete_task_permanent(task_id).done_stamps_in_order(now),
{
    let after = s.delete_task_permanent(task_id);
    lemma_apply_keeps_stamps(s.store, StoreWrite::DeleteTask { id: task_id }, now);

}

/// Deleting a project for good keeps the stamps in order.
pub proof fn lemma_delete_project_permanent_keeps_stamps(s: EngineView, project_id: u64, now: u64)
    requires
        s.done_stamps_in_order(now),
    ensures
        s.delete_project_permanent(project_id).done_stamps_in_order(now),
{
    let after = s.delete_project_permanent(project_id);
    lemma_apply_keeps_stamps(s.store, StoreWrite::DeleteProject { id: project_id }, now);

}

/// Wiping everything keeps the stamps in order.
pub proof fn lemma_reset_database_keeps_stamps(s: EngineView, now: u64)
    requires
        s.done_stamps_in_order(now),
    ensures
        s.reset_database().done_stamps_in_order(now),
{
    let after = s.reset_database();

}

/// Every finished-at stamp is in order in every state that the engine
/// reaches: where the stamps are in order at `now` and a command is carried
/// out at `now`, a second after the start of the epoch, the stamps are in
/// order afterwards. A task is finished at a second of the past, never at one
/// to come.
pub proof fn lemma_step_keeps_done_stamps(s: EngineView, command: Command, now: u64)
    requires
        s.done_stamps_in_order(now),
        now > 0,
    ensures
        s.step(command, now).done_stamps_in_order(now),
{
    match command {
        Command::AddProject { name } => {
            lemma_add_project_keeps_stamps(s, name, now);
        },
        Command::RemoveProject { project_id } => {
            lemma_remove_project_keeps_stamps(s, project_id, now);
        },
        Command::RenameProject { project_id, new_name } => {
            lemma_rename_project_keeps_stamps(s, project_id, new_name, now);
        },
        Command::RotateProject => {
            lemma_rotate_project_keeps_stamps(s, now);
        },
        Command::SetCurrentProject { index } => {
            lemma_set_current_project_keeps_stamps(s, index, now);
        },
        Command::RotateTask => {
            lemma_rotate_task_keeps_stamps(s, now);
        },
        Command::AddTask { project_id, name } => {
            lemma_add_task_keeps_stamps(s, project_id, name, now);
        },
        Command::RemoveTask { project_id, task_id } => {
            lemma_remove_task_keeps_stamps(s, project_id, task_id, now);
        },
        Command::RenameTask { project_id, task_id, new_name } => {
            lemma_rename_task_keeps_stamps(s, project_id, task_id, new_name, now);
        },
        Command::ToggleTaskDone { project_id, task_id, done } => {
            lemma_toggle_task_done_keeps_stamps(s, project_id, task_id, done, now);
        },
        Command::StartTracking { project_id, task_id, allow_multiple } => {
            lemma_start_tracking_keeps_stamps(s, project_id, task_id, allow_multiple, now);
        },
        Command::StopTracking { only } => {
            lemma_stop_tracking_keeps_stamps(s, only, now);
        },
        Command::RestoreProject { project_id } => {
            lemma_restore_project_keeps_stamps(s, project_id, now);
        },
        Command::RestoreTask { project_id, task_id } => {
            lemma_restore_task_keeps_stamps(s, project_id, task_id, now);
        },
        Command::DeleteTaskPermanent { task_id } => {
            lemma_delete_task_permanent_keeps_stamps(s, task_id, now);
        },
        Command::DeleteProjectPermanent { project_id } => {
            lemma_delete_project_permanent_keeps_stamps(s, project_id, now);
        },
        Command::ResetDatabase => {
            lemma_reset_database_keeps_stamps(s, now);
        },
    }
}

/// An engine that opens at `now`, a second after the start of the epoch,
/// over a store whose stamps are in order, has every stamp in order: what the
/// migration stamps, it stamps with `now`.
pub proof fn lemma_opened_done_stamps(store: StoreView, now: u64)
    requires
        store.done_stamps_in_order(now),
        now > 0,
    ensures
        EngineView::opened(store, now).done_stamps_in_order(now),
{
    let e = EngineView::opened(store, now);
    let s = store.ensure_schema(now);
    assert forall|i: int| 0 <= i < s.tasks.len() implies stamp_in_order(
        (#[trigger] s.tasks[i]).task.done_at,
        now,
    ) by {
        assert(stamp_in_order(store.tasks[i].task.done_at, now));
    }
    let rows = s.projects.filter(project_row_active());
    assert forall|i: int, j: int|
        0 <= i < e.projects.len() && 0 <= j < e.projects[i].tasks.len() implies stamp_in_order(
        (#[trigger] e.projects[i].tasks[j]).done_at,
        now,
    ) by {
        lemma_loaded_project_stamps(s.tasks, rows[i], now, now);
    }
}

/// A command and the second at which it is carried out.
pub struct TimedCommand {
    pub command: Command,
    pub at: u64,
}

/// The commands come at seconds that never fall, none of them before
/// `start`.
pub open spec fn times_rise(steps: Seq<TimedCommand>, start: u64) -> bool {
    &&& forall|i: int| 0 <= i < steps.len() ==> start <= (#[trigger] steps[i]).at
    &&& forall|i: int, j: int| 0 <= i < j < steps.len() ==> steps[i].at <= steps[j].at
}

impl EngineView {
    /// The state after a list of commands was carried out, one after the
    /// other, each at its second.
    pub open spec fn run(self, steps: Seq<TimedCommand>) -> EngineView
        decreases steps.len(),
    {
        if steps.len() == 0 {
            self
        } else {
            self.run(steps.drop_last()).step(steps.last().command, steps.last().at)
        }
    }
}

/// Whatever commands the engine carries out, as long as its clock never
/// runs backwards: where every finished-at stamp is in order at `start`, a
/// second after the start of the epoch, every stamp is in order at the second
/// of the last command.
pub proof fn lemma_run_keeps_done_stamps(s: EngineView, steps: Seq<TimedCommand>, start: u64)
    requires
        s.done_stamps_in_order(start),
        start > 0,
        times_rise(steps, start),
    ensures
        s.run(steps).done_stamps_in_order(
            if steps.len() == 0 {
                start
            } else {
                steps.last().at
            },
        ),
    decreases steps.len(),
{
    if steps.len() > 0 {
        let before = steps.drop_last();
        let last = steps.last();
        assert forall|i: int| 0 <= i < before.len() implies start <= (#[trigger] before[i]).at by {
            assert(start <= steps[i].at);
        }
        assert forall|i: int, j: int| 0 <= i < j < before.len() implies before[i].at
            <= before[j].at by {
            assert(steps[i].at <= steps[j].at);
        }
        lemma_run_keeps_done_stamps(s, before, start);
        let earlier = if before.len() == 0 {
            start
        } else {
            before.last().at
        };
        if before.len() > 0 {
            assert(steps[before.len() - 1].at <= steps[steps.len() - 1].at);
        }
        assert(start <= steps[steps.len() - 1].at);
        lemma_stamps_stay_in_order(s.run(before), earlier, last.at);
        lemma_step_keeps_done_stamps(s.run(before), last.command, last.at);
    }
}

/// The engine stays valid under every command.
pub proof fn lemma_step_keeps_wf(s: EngineView, command: Command, now: u64)
    requires
        s.wf(),
    ensures
        s.step(command, now).wf(),
{
    match command {
        Command::AddProject { name } => {
            lemma_add_project_keeps_wf(s, name);
        },
        Command::RemoveProject { project_id } => {
            lemma_remove_project_keeps_wf(s, project_id, now);
        },
        Command::RenameProject { project_id, new_name } => {
            lemma_rename_project_keeps_wf(s, project_id, new_name);
        },
        Command::RotateProject => {
            lemma_rotate_project_keeps_wf(s);
        },
        Command::SetCurrentProject { index } => {
            lemma_set_current_project_keeps_wf(s, index);
        },
        Command::RotateTask => {
            lemma_rotate_task_keeps_wf(s);
        },
        Command::AddTask { project_id, name } => {
            lemma_add_task_keeps_wf(s, project_id, name);
        },
        Command::RemoveTask { project_id, task_id } => {
            lemma_remove_task_keeps_wf(s, project_id, task_id, now);
        },
        Command::RenameTask { project_id, task_id, new_name } => {
            lemma_rename_task_keeps_wf(s, project_id, task_id, new_name);
        },
        Command::ToggleTaskDone { project_id, task_id, done } => {
            lemma_toggle_task_done_keeps_wf(s, project_id, task_id, done, now);
        },
        Command::StartTracking { project_id, task_id, allow_multiple } => {
            lemma_start_tracking_keeps_wf(s, project_id, task_id, allow_multiple, now);
        },
        Command::StopTracking { only } => {
            lemma_stop_tracking_keeps_wf(s, only, now);
        },
        Command::RestoreProject { project_id } => {
            lemma_restore_project_keeps_wf(s, project_id, now);
        },
        Command::RestoreTask { project_id, task_id } => {
            lemma_restore_task_keeps_wf(s, project_id, task_id);
        },
        Command::DeleteTaskPermanent { task_id } => {
            lemma_delete_keeps_wf(s, task_id);
        },
        Command::DeleteProjectPermanent { project_id } => {
            lemma_delete_keeps_wf(s, project_id);
        },
        Command::ResetDatabase => {
            lemma_reset_keeps_wf(s);
        },
    }
}

/// The engine stays valid whatever commands it carries out: no task ever
/// has two sessions, every position points into its list, and no id is given
/// out twice.
pub proof fn lemma_run_keeps_wf(s: EngineView, steps: Seq<TimedCommand>)
    requires
        s.wf(),
    ensures
        s.run(steps).wf(),
    decreases steps.len(),
{
    if steps.len() > 0 {
        lemma_run_keeps_wf(s, steps.drop_last());
        lemma_step_keeps_wf(s.run(steps.drop_last()), steps.last().command, steps.last().at);
    }
}

/// The sessions that are taken over from a store run against distinct
/// tasks.
pub proof fn lemma_distinct_sessions(ss: Seq<ActiveTracking>)
    ensures
        sessions_distinct(distinct_sessions(ss)),
    decreases ss.len(),
{
    if ss.len() > 0 {
        lemma_distinct_sessions(ss.drop_last());
        let before = distinct_sessions(ss.drop_last());
        let after = distinct_sessions(ss);
        lemma_first_match_is_first(before, session_of_task(ss.last().task_id));
        if session_index(before, ss.last().task_id) is None {
            assert forall|i: int, j: int| 0 <= i < j < after.len() implies after[i].task_id
                != after[j].task_id by {
                if j == before.len() {
                    assert(!session_of_task(ss.last().task_id)(before[i]));
                }
            }
        }
    }
}

/// An engine that opens over a store that keeps its order is valid.
pub proof fn lemma_opened_is_valid(store: StoreView, now: u64)
    requires
        store.wf(),
    ensures
        EngineView::opened(store, now).wf(),
{
    let e = EngineView::opened(store, now);
    lemma_apply_keeps_order(store, StoreWrite::MigrateLegacyFlags { now });
    lemma_ids_below_next(e.store);
    lemma_visible_projects_below(e.store, now, e.next_project_id, e.next_task_id);
    lemma_visible_projects_sound(e.store, now);
    lemma_distinct_sessions(e.store.sessions);
}

} // verus!

//! The store as a mirror: it changes through journaled writes only, so that
//! a backend that replays the journal holds what the store holds.

use vstd::prelude::*;
use crate::engine::{project_index, session_index, task_index, EngineView};
use crate::machine::Command;
use crate::model::ActiveTracking;
use crate::projects::{clamped, sessions_dropped};
use crate::rotation::done_stamp;
use crate::store::{ProjectChange, StoreView, StoreWrite, TaskChange};
use crate::tracking::{capped, elapsed_at, holds_task};

verus! {

/// A list of one write is that write.
pub proof fn lemma_apply_all_one(s: StoreView, w: StoreWrite)
    ensures
        s.apply_all(seq![w]) == s.apply(w),
{
    assert(seq![w].drop_last() =~= Seq::<StoreWrite>::empty());
    reveal_with_fuel(StoreView::apply_all, 2);
}

/// Two lists of writes, one after the other, are the joined list.
pub proof fn lemma_apply_all_concat(s: StoreView, a: Seq<StoreWrite>, b: Seq<StoreWrite>)
    ensures
        s.apply_all(a + b) == s.apply_all(a).apply_all(b),
    decreases b.len(),
{
    if b.len() == 0 {
        assert(a + b =~= a);
    } else {
        lemma_apply_all_concat(s, a, b.drop_last());
        assert((a + b).drop_last() =~= a + b.drop_last());
        assert((a + b).last() == b.last());
    }
}

/// A list of writes with one more write behind it.
pub proof fn lemma_apply_all_push(s: StoreView, ws: Seq<StoreWrite>, w: StoreWrite)
    ensures
        s.apply_all(ws.push(w)) == s.apply_all(ws).apply(w),
{
    assert(ws.push(w).drop_last() =~= ws);
}

/// The journal records every write, in the order in which it was made.
pub proof fn lemma_journal_records_writes(s: StoreView, ws: Seq<StoreWrite>)
    ensures
        s.apply_all(ws).journal == s.journal + ws,
    decreases ws.len(),
{
    if ws.len() == 0 {
        assert(s.journal + ws =~= s.journal);
    } else {
        lemma_journal_records_writes(s, ws.drop_last());
        assert(s.journal + ws =~= (s.journal + ws.drop_last()).push(ws.last()));
    }
}

/// What a write does to the tables depends on the tables alone.
pub proof fn lemma_write_reads_tables_only(a: StoreView, b: StoreView, w: StoreWrite)
    requires
        a.same_tables(b),
    ensures
        a.apply(w).same_tables(b.apply(w)),
{
}

/// A backend that holds the tables of a store and replays the writes that
/// the store makes holds the tables of the store afterwards.
pub proof fn lemma_replay_reaches_same_tables(a: StoreView, b: StoreView, ws: Seq<StoreWrite>)
    requires
        a.same_tables(b),
    ensures
        a.apply_all(ws).same_tables(b.apply_all(ws)),
    decreases ws.len(),
{
    if ws.len() > 0 {
        lemma_replay_reaches_same_tables(a, b, ws.drop_last());
        lemma_write_reads_tables_only(
            a.apply_all(ws.drop_last()),
            b.apply_all(ws.drop_last()),
            ws.last(),
        );
    }
}

/// The writes that commit one session.
pub proof fn lemma_commit_writes(s: EngineView, session: ActiveTracking, now: u64) -> (ws: Seq<
    StoreWrite,
>)
    ensures
        s.commit(session, now).store == s.store.apply_all(ws),
{
    let elapsed = elapsed_at(session.started_at, now);
    if s.commit(session, now).store == s.store {
        Seq::empty()
    } else {
        let pi = project_index(s.projects, session.project_id).unwrap();
        let ti = task_index(s.projects[pi].tasks, session.task_id).unwrap();
        let task = s.projects[pi].tasks[ti];
        let w1 = StoreWrite::UpdateTask(
            task.id,
            TaskChange::Time(capped(task.time_seconds + elapsed)),
        );
        let w2 = StoreWrite::InsertTimeEntry {
            project_id: session.project_id,
            task_id: session.task_id,
            start_time: session.started_at,
            end_time: now,
            duration_seconds: elapsed,
        };
        lemma_apply_all_one(s.store, w1);
        lemma_apply_all_push(s.store, seq![w1], w2);
        seq![w1].push(w2)
    }
}

/// The writes that commit a list of sessions.
pub proof fn lemma_commit_all_writes(s: EngineView, ss: Seq<ActiveTracking>, now: u64) -> (ws: Seq<
    StoreWrite,
>)
    ensures
        s.commit_all(ss, now).store == s.store.apply_all(ws),
    decreases ss.len(),
{
    if ss.len() == 0 {
        Seq::empty()
    } else {
        let a = lemma_commit_all_writes(s, ss.drop_last(), now);
        let b = lemma_commit_writes(s.commit_all(ss.drop_last(), now), ss.last(), now);
        lemma_apply_all_concat(s.store, a, b);
        a + b
    }
}

/// The writes that take the sessions of a project out of the store.
pub proof fn lemma_sessions_dropped_writes(store: StoreView, ss: Seq<ActiveTracking>, project_id: u64) -> (ws:
    Seq<StoreWrite>)
    ensures
        sessions_dropped(store, ss, project_id) == store.apply_all(ws),
    decreases ss.len(),
{
    if ss.len() == 0 {
        Seq::empty()
    } else {
        let a = lemma_sessions_dropped_writes(store, ss.drop_last(), project_id);
        if ss.last().project_id == project_id {
            let w = StoreWrite::RemoveSession { task_id: ss.last().task_id };
            lemma_apply_all_push(store, a, w);
            a.push(w)
        } else {
            a
        }
    }
}

/// The writes that stop every session.
pub proof fn lemma_stop_all_writes(s: EngineView, now: u64) -> (ws: Seq<StoreWrite>)
    ensures
        s.stop_all(now).store == s.store.apply_all(ws),
{
    let a = lemma_commit_all_writes(s, s.sessions, now);
    lemma_apply_all_push(s.store, a, StoreWrite::ClearSessions);
    a.push(StoreWrite::ClearSessions)
}

/// The writes that open a session.
pub proof fn lemma_begin_writes(s: EngineView, project_id: u64, task_id: u64, now: u64) -> (ws: Seq<
    StoreWrite,
>)
    ensures
        s.begin(project_id, task_id, now).store == s.store.apply_all(ws),
{
    if s.begin(project_id, task_id, now).store == s.store {
        Seq::empty()
    } else {
        let w = StoreWrite::AddSession {
            session: ActiveTracking { project_id, task_id, started_at: now },
        };
        lemma_apply_all_one(s.store, w);
        seq![w]
    }
}

/// The writes of a start request.
pub proof fn lemma_start_tracking_writes(
    s: EngineView,
    project_id: u64,
    task_id: u64,
    allow_multiple: bool,
    now: u64,
) -> (ws: Seq<StoreWrite>)
    ensures
        s.start_tracking(project_id, task_id, allow_multiple, now).store == s.store.apply_all(ws),
{
    if session_index(s.sessions, task_id) is Some || !holds_task(s.projects, project_id, task_id) {
        Seq::empty()
    } else if !allow_multiple && s.sessions.len() > 0 {
        let a = lemma_stop_all_writes(s, now);
        let b = lemma_begin_writes(s.stop_all(now), project_id, task_id, now);
        lemma_apply_all_concat(s.store, a, b);
        a + b
    } else {
        lemma_begin_writes(s, project_id, task_id, now)
    }
}

/// The writes of a stop request.
pub proof fn lemma_stop_tracking_writes(s: EngineView, only: Option<u64>, now: u64) -> (ws: Seq<
    StoreWrite,
>)
    ensures
        s.stop_tracking(only, now).store == s.store.apply_all(ws),
{
    match only {
        Some(t) => match session_index(s.sessions, t) {
            Some(i) => {
                let a = lemma_commit_writes(s, s.sessions[i], now);
                let w = StoreWrite::RemoveSession { task_id: t };
                lemma_apply_all_push(s.store, a, w);
                a.push(w)
            },
            None => Seq::empty(),
        },
        None => if s.sessions.len() == 0 {
            Seq::empty()
        } else {
            lemma_stop_all_writes(s, now)
        },
    }
}

/// The writes that archive a project.
pub proof fn lemma_remove_project_writes(s: EngineView, project_id: u64, now: u64) -> (ws: Seq<
    StoreWrite,
>)
    ensures
        s.remove_project(project_id, now).store == s.store.apply_all(ws),
{
    match project_index(s.projects, project_id) {
        None => Seq::empty(),
        Some(pos) => {
            let a = lemma_sessions_dropped_writes(s.store, s.sessions, project_id);
            let w1 = StoreWrite::SetProjectTasksArchived { project_id, archived_at: Some(now) };
            let w2 = StoreWrite::UpdateProject(project_id, ProjectChange::Archived(Some(now)));
            let w3 = StoreWrite::SaveCurrentProjectIndex {
                index: clamped(s.current_project_index, s.projects.remove(pos).len()),
            };
            lemma_apply_all_push(s.store, a, w1);
            lemma_apply_all_push(s.store, a.push(w1), w2);
            lemma_apply_all_push(s.store, a.push(w1).push(w2), w3);
            a.push(w1).push(w2).push(w3)
        },
    }
}

/// The writes that archive a task.
pub proof fn lemma_remove_task_writes(s: EngineView, project_id: u64, task_id: u64, now: u64) -> (ws: Seq<
    StoreWrite,
>)
    ensures
        s.remove_task(project_id, task_id, now).store == s.store.apply_all(ws),
{
    match project_index(s.projects, project_id) {
        None => Seq::empty(),
        Some(pi) => {
            let p = s.projects[pi];
            match task_index(p.tasks, task_id) {
                None => Seq::empty(),
                Some(ti) => {
                    let a = if session_index(s.sessions, task_id) is Some {
                        lemma_apply_all_one(s.store, StoreWrite::RemoveSession { task_id });
                        seq![StoreWrite::RemoveSession { task_id }]
                    } else {
                        Seq::empty()
                    };
                    let w1 = StoreWrite::UpdateTask(task_id, TaskChange::Archived(Some(now)));
                    let w2 = StoreWrite::UpdateProject(
                        project_id,
                        ProjectChange::CurrentTaskIndex(
                            clamped(p.current_task_index, p.tasks.remove(ti).len()),
                        ),
                    );
                    lemma_apply_all_push(s.store, a, w1);
                    lemma_apply_all_push(s.store, a.push(w1), w2);
                    a.push(w1).push(w2)
                },
            }
        },
    }
}

/// The store changes through writes only: whatever a command does to the
/// store, it does by a list of writes, which the journal then holds.
pub proof fn lemma_step_goes_through_writes(s: EngineView, command: Command, now: u64) -> (ws: Seq<
    StoreWrite,
>)
    ensures
        s.step(command, now).store == s.store.apply_all(ws),
        s.step(command, now).store.journal == s.store.journal + ws,
{
    let after = s.step(command, now);
    let ws = match command {
        Command::RemoveProject { project_id } => lemma_remove_project_writes(s, project_id, now),
        Command::RemoveTask { project_id, task_id } => lemma_remove_task_writes(
            s,
            project_id,
            task_id,
            now,
        ),
        Command::StartTracking { project_id, task_id, allow_multiple } => {
            lemma_start_tracking_writes(s, project_id, task_id, allow_multiple, now)
        },
        Command::StopTracking { only } => lemma_stop_tracking_writes(s, only, now),
        Command::RestoreProject { project_id } => {
            if after.store == s.store {
                Seq::empty()
            } else {
                let w1 = StoreWrite::UpdateProject(project_id, ProjectChange::Archived(None));
                let w2 = StoreWrite::SetProjectTasksArchived { project_id, archived_at: None };
                lemma_apply_all_one(s.store, w1);
                lemma_apply_all_push(s.store, seq![w1], w2);
                seq![w1].push(w2)
            }
        },
        _ => {
            if after.store == s.store {
                Seq::empty()
            } else {
                let w = single_write(s, command, now);
                lemma_apply_all_one(s.store, w);
                seq![w]
            }
        },
    };
    lemma_journal_records_writes(s.store, ws);
    ws
}

/// The one write of a command that makes one write.
pub open spec fn single_write(s: EngineView, command: Command, now: u64) -> StoreWrite {
    match command {
        Command::AddProject { name } => StoreWrite::InsertProject { id: s.next_project_id, name },
        Command::RenameProject { project_id, new_name } => StoreWrite::UpdateProject(
            project_id,
            ProjectChange::Name(new_name),
        ),
        Command::RotateProject => StoreWrite::SaveCurrentProjectIndex {
            index: s.rotate_project().current_project_index,
        },
        Command::SetCurrentProject { index } => StoreWrite::SaveCurrentProjectIndex { index: 0 },
        Command::RotateTask => StoreWrite::UpdateProject(
            s.projects[s.current_project_index as int].id,
            ProjectChange::CurrentTaskIndex(s.rotation_target().unwrap() as usize),
        ),
        Command::AddTask { project_id, name } => StoreWrite::InsertTask {
            id: s.next_task_id,
            project_id,
            name,
            time_seconds: 0,
        },
        Command::RenameTask { project_id, task_id, new_name } => StoreWrite::UpdateTask(
            task_id,
            TaskChange::Name(new_name),
        ),
        Command::ToggleTaskDone { project_id, task_id, done } => StoreWrite::UpdateTask(
            task_id,
            TaskChange::Done(done_stamp(done, now)),
        ),
        Command::RestoreTask { project_id, task_id } => StoreWrite::UpdateTask(
            task_id,
            TaskChange::Archived(None),
        ),
        Command::DeleteTaskPermanent { task_id } => StoreWrite::DeleteTask { id: task_id },
        Command::DeleteProjectPermanent { project_id } => StoreWrite::DeleteProject {
            id: project_id,
        },
        _ => StoreWrite::Reset,
    }
}

} // verus!

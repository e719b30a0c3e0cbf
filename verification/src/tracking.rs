//! The life of a tracking session: start, stop, and the commit of the time
//! that it measured.

use vstd::prelude::*;
use crate::engine::{
    find_project, find_session, find_task, project_index, session_index, session_of_task,
    task_index, Engine, EngineView,
};
use crate::model::{projects_view, ActiveTracking, MIN_TRACKED_SECONDS, Project, ProjectView, Task};
use crate::seq_util::lemma_first_match_none;
use crate::store::{session_not_of_task, StoreWrite, TaskChange};
use crate::tables::sessions_without_task;
use crate::validity::{
    lemma_begin_keeps_wf, lemma_commit_keeps_wf, lemma_stop_all_keeps_wf,
    lemma_stop_tracking_keeps_wf,
};

verus! {

/// The seconds that a session started at `started_at` has run at `now`; none
/// where the clock stands before the start.
pub open spec fn elapsed_at(started_at: u64, now: u64) -> u64 {
    if now >= started_at {
        (now - started_at) as u64
    } else {
        0
    }
}

/// A sum of seconds, held at the largest number where it would pass it.
pub open spec fn capped(total: int) -> u64 {
    if total <= u64::MAX {
        total as u64
    } else {
        u64::MAX
    }
}

/// The seconds that a list of sessions has run at `now`, all together.
pub open spec fn elapsed_sum(ss: Seq<ActiveTracking>, now: u64) -> int
    decreases ss.len(),
{
    if ss.len() == 0 {
        0
    } else {
        elapsed_sum(ss.drop_last(), now) + elapsed_at(ss.last().started_at, now)
    }
}

/// Some project with this id holds a task with this id.
pub open spec fn holds_task(ps: Seq<ProjectView>, project_id: u64, task_id: u64) -> bool {
    exists|i: int, j: int|
        0 <= i < ps.len() && 0 <= j < ps[i].tasks.len() && (#[trigger] ps[i]).id == project_id && (
        #[trigger] ps[i].tasks[j]).id == task_id
}

impl EngineView {
    /// The state after the time of one session was committed at `now`.
    ///
    /// A session that ran for less than `MIN_TRACKED_SECONDS` leaves no
    /// trace. A longer one adds its seconds to the task (the first task with
    /// its task id in the first project with its project id) and appends a
    /// time entry; where that task is not in the rotation, nothing is
    /// committed.
    pub open spec fn commit(self, s: ActiveTracking, now: u64) -> EngineView {
        let elapsed = elapsed_at(s.started_at, now);
        if elapsed < MIN_TRACKED_SECONDS {
            self
        } else {
            match project_index(self.projects, s.project_id) {
                None => self,
                Some(pi) => match task_index(self.projects[pi].tasks, s.task_id) {
                    None => self,
                    Some(ti) => {
                        let project = self.projects[pi];
                        let task = project.tasks[ti];
                        let total = capped(task.time_seconds + elapsed);
                        EngineView {
                            projects: self.projects.update(
                                pi,
                                ProjectView {
                                    tasks: project.tasks.update(
                                        ti,
                                        Task { time_seconds: total, ..task },
                                    ),
                                    ..project
                                },
                            ),
                            store: self.store.apply(
                                StoreWrite::UpdateTask(task.id, TaskChange::Time(total)),
                            ).apply(
                                StoreWrite::InsertTimeEntry {
                                    project_id: s.project_id,
                                    task_id: s.task_id,
                                    start_time: s.started_at,
                                    end_time: now,
                                    duration_seconds: elapsed,
                                },
                            ),
                            ..self
                        }
                    },
                },
            }
        }
    }

    /// The state after the time of each of these sessions was committed at
    /// `now`, in order.
    pub open spec fn commit_all(self, ss: Seq<ActiveTracking>, now: u64) -> EngineView
        decreases ss.len(),
    {
        if ss.len() == 0 {
            self
        } else {
            self.commit_all(ss.drop_last(), now).commit(ss.last(), now)
        }
    }

    /// The state after every running session was stopped at `now`.
    pub open spec fn stop_all(self, now: u64) -> EngineView {
        let c = self.commit_all(self.sessions, now);
        EngineView {
            sessions: Seq::empty(),
            store: c.store.apply(StoreWrite::ClearSessions),
            ..c
        }
    }

    /// The state after the session of one task was stopped at `now`. Where
    /// the task has no session, nothing changes.
    pub open spec fn stop_task(self, task_id: u64, now: u64) -> EngineView {
        match session_index(self.sessions, task_id) {
            None => self,
            Some(i) => {
                let c = self.commit(self.sessions[i], now);
                EngineView {
                    sessions: c.sessions.filter(session_not_of_task(task_id)),
                    store: c.store.apply(StoreWrite::RemoveSession { task_id }),
                    ..c
                }
            },
        }
    }

    /// The state after a stop request at `now`: for one task, or for every
    /// running session.
    pub open spec fn stop_tracking(self, task_id: Option<u64>, now: u64) -> EngineView {
        match task_id {
            Some(t) => self.stop_task(t, now),
            None => if self.sessions.len() == 0 {
                self
            } else {
                self.stop_all(now)
            },
        }
    }

    /// What a stop request at `now` returns: the seconds that the stopped
    /// sessions had run, or nothing where no session was stopped.
    pub open spec fn stopped_seconds(self, task_id: Option<u64>, now: u64) -> Option<u64> {
        match task_id {
            Some(t) => match session_index(self.sessions, t) {
                None => None,
                Some(i) => Some(elapsed_at(self.sessions[i].started_at, now)),
            },
            None => if self.sessions.len() == 0 {
                None
            } else {
                Some(capped(elapsed_sum(self.sessions, now)))
            },
        }
    }

    /// The state after a session was opened for a task at `now`. Where no
    /// project with this id holds a task with this id, nothing changes.
    pub open spec fn begin(self, project_id: u64, task_id: u64, now: u64) -> EngineView {
        if holds_task(self.projects, project_id, task_id) {
            let s = ActiveTracking { project_id, task_id, started_at: now };
            EngineView {
                sessions: self.sessions.push(s),
                store: self.store.apply(StoreWrite::AddSession { session: s }),
                ..self
            }
        } else {
            self
        }
    }

    /// The state after a start request at `now`.
    ///
    /// A task that has a session keeps it untouched, and a start for a task
    /// that no project with this id holds is turned down: in both cases
    /// nothing changes. Otherwise, without `allow_multiple`, every running
    /// session is stopped before the new one is opened.
    pub open spec fn start_tracking(
        self,
        project_id: u64,
        task_id: u64,
        allow_multiple: bool,
        now: u64,
    ) -> EngineView {
        if session_index(self.sessions, task_id) is Some || !holds_task(
            self.projects,
            project_id,
            task_id,
        ) {
            self
        } else if !allow_multiple && self.sessions.len() > 0 {
            self.stop_all(now).begin(project_id, task_id, now)
        } else {
            self.begin(project_id, task_id, now)
        }
    }
}

/// Decides whether some project with this id holds a task with this id.
pub fn project_holds_task(ps: &Vec<Project>, project_id: u64, task_id: u64) -> (b: bool)
    ensures
        b == holds_task(projects_view(ps@), project_id, task_id),
{
    let ghost pv = projects_view(ps@);
    let mut i: usize = 0;
    while i < ps.len()
        invariant
            i <= ps.len(),
            pv == projects_view(ps@),
            forall|a: int, b: int|
                0 <= a < i && 0 <= b < pv[a].tasks.len() ==> !((#[trigger] pv[a]).id == project_id
                    && (#[trigger] pv[a].tasks[b]).id == task_id),
        decreases ps.len() - i,
    {
        if ps[i].id == project_id {
            let mut j: usize = 0;
            while j < ps[i].tasks.len()
                invariant
                    i < ps.len(),
                    j <= ps[i as int].tasks.len(),
                    pv == projects_view(ps@),
                    ps@[i as int].id == project_id,
                    forall|b: int| 0 <= b < j ==> (#[trigger] pv[i as int].tasks[b]).id != task_id,
                decreases ps[i as int].tasks.len() - j,
            {
                if ps[i].tasks[j].id == task_id {
                    assert(pv[i as int] == ps@[i as int]@);
                    assert(pv[i as int].id == project_id && pv[i as int].tasks[j as int].id
                        == task_id);
                    return true;
                }
                j += 1;
            }
        }
        i += 1;
    }
    false
}

impl Engine {
    /// Commits the time of one session at `now`.
    pub fn commit_session(&mut self, s: ActiveTracking, now: u64)
        requires
            old(self)@.wf(),
        ensures
            final(self)@ == old(self)@.commit(s, now),
            final(self)@.wf(),
    {
        let ghost before = self@;
        proof {
            lemma_commit_keeps_wf(before, s, now);
        }
        let elapsed: u64 = if now >= s.started_at {
            now - s.started_at
        } else {
            0
        };
        if elapsed < MIN_TRACKED_SECONDS {
            return ;
        }
        let pi = match find_project(&self.projects, s.project_id) {
            Some(pi) => pi,
            None => {
                return ;
            },
        };
        let ti = match find_task(&self.projects[pi].tasks, s.task_id) {
            Some(ti) => ti,
            None => {
                return ;
            },
        };
        let total: u64 = self.projects[pi].tasks[ti].time_seconds.saturating_add(elapsed);
        let id: u64 = self.projects[pi].tasks[ti].id;
        self.projects[pi].tasks[ti].time_seconds = total;
        self.store.update_task_time(id, total);
        self.store.insert_time_entry(s.project_id, s.task_id, s.started_at, now, elapsed);
        proof {
            let project = before.projects[pi as int];
            let task = project.tasks[ti as int];
            assert(self@.projects =~~= before.projects.update(
                pi as int,
                ProjectView {
                    tasks: project.tasks.update(ti as int, Task { time_seconds: total, ..task }),
                    ..project
                },
            ));
        }
    }

    /// Stops every running session at `now`: commits the time of each, in
    /// order, and leaves no session. Returns the seconds that the sessions
    /// had run, all together.
    pub fn stop_all_tracking(&mut self, now: u64) -> (total: u64)
        requires
            old(self)@.wf(),
        ensures
            final(self)@ == old(self)@.stop_all(now),
            final(self)@.wf(),
            total == capped(elapsed_sum(old(self)@.sessions, now)),
    {
        let ghost start = self@;
        proof {
            lemma_stop_all_keeps_wf(start, now);
        }
        let mut total: u64 = 0;
        let mut i: usize = 0;
        while i < self.sessions.len()
            invariant
                i <= self.sessions.len(),
                self@.wf(),
                self@.sessions == start.sessions,
                self@ == start.commit_all(start.sessions.take(i as int), now),
                total == capped(elapsed_sum(start.sessions.take(i as int), now)),
                0 <= elapsed_sum(start.sessions.take(i as int), now),
            decreases self.sessions.len() - i,
        {
            let s = self.sessions[i];
            let elapsed: u64 = if now >= s.started_at {
                now - s.started_at
            } else {
                0
            };
            proof {
                assert(start.sessions.take(i + 1).drop_last() =~= start.sessions.take(i as int));
            }
            total = total.saturating_add(elapsed);
            self.commit_session(s, now);
            i += 1;
        }
        assert(start.sessions.take(start.sessions.len() as int) =~= start.sessions);
        self.store.clear_active_sessions();
        self.sessions = Vec::new();
        total
    }

    /// Stops the session of one task at `now` and commits its time. Returns
    /// the seconds that it had run, or nothing where the task had no session.
    pub fn stop_tracking_for_task(&mut self, task_id: u64, now: u64) -> (r: Option<u64>)
        requires
            old(self)@.wf(),
        ensures
            final(self)@ == old(self)@.stop_task(task_id, now),
            final(self)@.wf(),
            r == old(self)@.stopped_seconds(Some(task_id), now),
    {
        proof {
            lemma_stop_tracking_keeps_wf(self@, Some(task_id), now);
        }
        let i = match find_session(&self.sessions, task_id) {
            Some(i) => i,
            None => {
                return None;
            },
        };
        let s = self.sessions[i];
        let elapsed: u64 = if now >= s.started_at {
            now - s.started_at
        } else {
            0
        };
        self.commit_session(s, now);
        self.store.remove_active_session(task_id);
        self.sessions = sessions_without_task(&self.sessions, task_id);
        Some(elapsed)
    }

    /// Stops tracking at `now`: the session of one task where a task is
    /// given, every running session otherwise. Returns the seconds that the
    /// stopped sessions had run, or nothing where no session was stopped.
    ///
    /// A session that ran for at least `MIN_TRACKED_SECONDS` adds its seconds
    /// to its task and appends a time entry; a shorter one leaves no trace.
    pub fn stop_tracking(&mut self, task_id: Option<u64>, now: u64) -> (r: Option<u64>)
        requires
            old(self)@.wf(),
        ensures
            final(self)@ == old(self)@.stop_tracking(task_id, now),
            final(self)@.wf(),
            r == old(self)@.stopped_seconds(task_id, now),
    {
        match task_id {
            Some(t) => self.stop_tracking_for_task(t, now),
            None => {
                if self.sessions.len() == 0 {
                    None
                } else {
                    Some(self.stop_all_tracking(now))
                }
            },
        }
    }

    /// Opens a session for a task at `now`, where some project with this id
    /// holds a task with this id. Returns the running sessions.
    pub fn begin_tracking(&mut self, project_id: u64, task_id: u64, now: u64) -> (r: Vec<ActiveTracking>)
        requires
            old(self)@.wf(),
            session_index(old(self)@.sessions, task_id) is None,
        ensures
            final(self)@ == old(self)@.begin(project_id, task_id, now),
            final(self)@.wf(),
            r@ == final(self)@.sessions,
    {
        proof {
            lemma_begin_keeps_wf(self@, project_id, task_id, now);
        }
        if project_holds_task(&self.projects, project_id, task_id) {
            let s = ActiveTracking { project_id, task_id, started_at: now };
            self.store.add_active_session(s);
            self.sessions.push(s);
        }
        self.get_active_tracking()
    }

    /// Starts tracking a task at `now` and returns the running sessions.
    ///
    /// A task that has a session keeps it untouched, and a start for a task
    /// that no project with this id holds is turned down: in both cases
    /// nothing changes. Otherwise, without `allow_multiple`, every running
    /// session is first stopped and its time committed, and then the new
    /// session is opened.
    pub fn start_tracking(
        &mut self,
        project_id: u64,
        task_id: u64,
        allow_multiple: bool,
        now: u64,
    ) -> (r: Vec<ActiveTracking>)
        requires
            old(self)@.wf(),
        ensures
            final(self)@ == old(self)@.start_tracking(project_id, task_id, allow_multiple, now),
            final(self)@.wf(),
            r@ == final(self)@.sessions,
    {
        if find_session(&self.sessions, task_id).is_some() || !project_holds_task(
            &self.projects,
            project_id,
            task_id,
        ) {
            return self.get_active_tracking();
        }
        if !allow_multiple && self.sessions.len() > 0 {
            self.stop_all_tracking(now);
            proof {
                lemma_first_match_none(self@.sessions, session_of_task(task_id));
            }
        }
        self.begin_tracking(project_id, task_id, now)
    }
}

} // verus!

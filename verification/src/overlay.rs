//! What the engine exchanges with the overlay that shows the running
//! timers: the snapshot that it hands over, and the queue of stop requests
//! that it takes back.

use vstd::prelude::*;
use vstd::string::{StrSliceExecFns, StringExecFns};
use crate::calendar::{decimal, digit_text, push_decimal, two_digits};
use crate::engine::{
    find_project, find_task, project_has_id, project_index, task_has_id, task_index, Engine,
};
use crate::model::{ActiveTracking, ProjectView};
use crate::seq_util::lemma_first_match_is_first;
use crate::tracking::elapsed_at;

verus! {

/// The longest project name, in characters, that the overlay shows in full.
pub const MAX_PROJECT_LABEL: usize = 20;

/// The longest task name, in characters, that the overlay shows in full.
pub const MAX_TASK_LABEL: usize = 30;

/// One running timer as the overlay shows it.
#[derive(Debug, PartialEq, Eq)]
pub struct TimerEntry {
    pub task_id: u64,
    pub project_name: String,
    pub task_name: String,
    pub elapsed_seconds: u64,
}

impl Clone for TimerEntry {
    fn clone(&self) -> (r: Self)
        ensures
            r == *self,
    {
        TimerEntry {
            task_id: self.task_id,
            project_name: self.project_name.clone(),
            task_name: self.task_name.clone(),
            elapsed_seconds: self.elapsed_seconds,
        }
    }
}

/// The running timers, in the order in which the overlay lists them.
#[derive(Debug, PartialEq, Eq)]
pub struct TimerState {
    pub entries: Vec<TimerEntry>,
}

impl Clone for TimerState {
    fn clone(&self) -> (r: Self)
        ensures
            r.entries@ == self.entries@,
    {
        let mut entries: Vec<TimerEntry> = Vec::new();
        let mut i: usize = 0;
        while i < self.entries.len()
            invariant
                i <= self.entries.len(),
                entries@ == self.entries@.take(i as int),
            decreases self.entries.len() - i,
        {
            entries.push(self.entries[i].clone());
            assert(self.entries@.take(i + 1) =~= self.entries@.take(i as int).push(
                self.entries@[i as int],
            ));
            i += 1;
        }
        assert(self.entries@.take(self.entries.len() as int) =~= self.entries@);
        TimerState { entries }
    }
}

impl Default for TimerState {
    /// The snapshot without any running timer.
    fn default() -> (r: Self)
        ensures
            r.entries@ == Seq::<TimerEntry>::empty(),
    {
        TimerState { entries: Vec::new() }
    }
}

/// The stop requests that the overlay has made and the engine has not yet
/// taken.
pub struct StopQueue {
    pending: Vec<u64>,
}

impl StopQueue {
    /// The ids of the tasks to stop, oldest request first.
    pub closed spec fn view(&self) -> Seq<u64> {
        self.pending@
    }

    /// A queue without requests.
    pub fn new() -> (q: StopQueue)
        ensures
            q@ == Seq::<u64>::empty(),
    {
        StopQueue { pending: Vec::new() }
    }

    /// Records the request to stop the timer of a task.
    pub fn push_stopped_task(&mut self, task_id: u64)
        ensures
            final(self)@ == old(self)@.push(task_id),
    {
        self.pending.push(task_id);
    }

    /// The number of requests that wait.
    pub fn len(&self) -> (n: usize)
        ensures
            n == self@.len(),
    {
        self.pending.len()
    }
}

/// Takes the newest stop request out of the queue. Returns nothing where no
/// request waits.
pub fn pop_stopped_task(queue: &mut StopQueue) -> (r: Option<u64>)
    ensures
        match r {
            Some(task_id) => {
                &&& old(queue)@.len() > 0
                &&& task_id == old(queue)@.last()
                &&& final(queue)@ == old(queue)@.drop_last()
            },
            None => old(queue)@.len() == 0 && final(queue)@ == old(queue)@,
        },
{
    let r = queue.pending.pop();
    proof {
        if old(queue)@.len() > 0 {
            assert(queue@ =~= old(queue)@.drop_last());
        }
    }
    r
}

/// What the overlay does on a click.
#[derive(Clone, Copy, Debug, PartialEq, Eq, Structural)]
pub enum ClickAction {
    /// The click hit no timer.
    Nothing,
    /// The click hit the stop button of the timer of a task; the request to
    /// stop it was put in the queue.
    StopRequested(u64),
    /// The click hit a timer beside its stop button; the main window is to
    /// be shown.
    ShowMainWindow,
}

/// What a click on row `row` does to a snapshot with these entries.
pub open spec fn click_action(entries: Seq<TimerEntry>, row: usize, over_stop_button: bool) -> ClickAction {
    if row >= entries.len() {
        ClickAction::Nothing
    } else if over_stop_button {
        ClickAction::StopRequested(entries[row as int].task_id)
    } else {
        ClickAction::ShowMainWindow
    }
}

/// Decides what a click on row `row` of the overlay does, and records the
/// stop request where the click hit a stop button.
pub fn handle_click(queue: &mut StopQueue, state: &TimerState, row: usize, over_stop_button: bool) -> (r: ClickAction)
    ensures
        r == click_action(state.entries@, row, over_stop_button),
        final(queue)@ == (match r {
            ClickAction::StopRequested(task_id) => old(queue)@.push(task_id),
            _ => old(queue)@,
        }),
{
    if row >= state.entries.len() {
        ClickAction::Nothing
    } else if over_stop_button {
        let task_id = state.entries[row].task_id;
        queue.push_stopped_task(task_id);
        ClickAction::StopRequested(task_id)
    } else {
        ClickAction::ShowMainWindow
    }
}

/// The row whose stop button is lit while the pointer stands on row `row`:
/// that row, where the pointer is over the stop button of a timer.
pub fn hovered_row(state: &TimerState, row: usize, over_stop_button: bool) -> (r: Option<usize>)
    ensures
        r == (if over_stop_button && row < state.entries@.len() {
            Some(row)
        } else {
            None
        }),
{
    if over_stop_button && row < state.entries.len() {
        Some(row)
    } else {
        None
    }
}

/// A label as the overlay shows it: in full up to `max` characters, and cut
/// to one character less with an ellipsis behind it beyond that.
pub open spec fn label_text(name: Seq<char>, max: usize) -> Seq<char> {
    if name.len() > max {
        if max == 0 {
            seq!['\u{2026}']
        } else {
            name.subrange(0, max - 1).push('\u{2026}')
        }
    } else {
        name
    }
}

/// The label of a name for the overlay.
pub fn truncate_label(name: &str, max: usize) -> (r: String)
    ensures
        r@ == label_text(name@, max),
{
    proof {
        reveal_strlit("\u{2026}");
    }
    if name.unicode_len() > max {
        let mut r = String::new();
        if max > 0 {
            r.append(name.substring_char(0, max - 1));
        }
        r.append("\u{2026}");
        assert(r@ =~= label_text(name@, max));
        r
    } else {
        name.to_owned()
    }
}

/// Seconds as the overlay shows them: minutes and seconds, with the hours
/// in front where there are any.
pub open spec fn elapsed_text(elapsed: u64) -> Seq<char> {
    let hours = (elapsed / 3600) as nat;
    let minutes = ((elapsed % 3600) / 60) as nat;
    let seconds = (elapsed % 60) as nat;
    if hours > 0 {
        decimal(hours) + seq![':'] + two_digits(minutes) + seq![':'] + two_digits(seconds)
    } else {
        decimal(minutes) + seq![':'] + two_digits(seconds)
    }
}

/// The text of a number of seconds for the overlay.
pub fn format_elapsed(elapsed: u64) -> (r: String)
    ensures
        r@ == elapsed_text(elapsed),
{
    let hours: u64 = elapsed / 3600;
    let minutes: u64 = (elapsed % 3600) / 60;
    let seconds: u64 = elapsed % 60;
    proof {
        reveal_strlit(":");
    }
    let mut r = String::new();
    if hours > 0 {
        push_decimal(&mut r, hours);
        r.append(":");
        r.append(digit_text((minutes / 10) as u8));
        r.append(digit_text((minutes % 10) as u8));
    } else {
        push_decimal(&mut r, minutes);
    }
    r.append(":");
    r.append(digit_text((seconds / 10) as u8));
    r.append(digit_text((seconds % 10) as u8));
    assert(r@ =~= elapsed_text(elapsed));
    r
}

/// The timers that the overlay shows for these sessions at `now`, in the
/// order of the sessions: each with the names of the first task with its task
/// id in the first project with its project id, and with the seconds that it
/// has run. A session whose task the rotation does not hold is left out.
pub open spec fn timer_entries(ps: Seq<ProjectView>, ss: Seq<ActiveTracking>, now: u64) -> Seq<TimerEntry>
    decreases ss.len(),
{
    if ss.len() == 0 {
        Seq::empty()
    } else {
        let before = timer_entries(ps, ss.drop_last(), now);
        let s = ss.last();
        match project_index(ps, s.project_id) {
            None => before,
            Some(pi) => match task_index(ps[pi].tasks, s.task_id) {
                None => before,
                Some(ti) => before.push(
                    TimerEntry {
                        task_id: s.task_id,
                        project_name: ps[pi].name,
                        task_name: ps[pi].tasks[ti].name,
                        elapsed_seconds: elapsed_at(s.started_at, now),
                    },
                ),
            },
        }
    }
}

impl Engine {
    /// The snapshot of the running timers at `now` for the overlay.
    pub fn timer_state(&self, now: u64) -> (r: TimerState)
        ensures
            r.entries@ == timer_entries(self@.projects, self@.sessions, now),
    {
        let mut entries: Vec<TimerEntry> = Vec::new();
        let mut i: usize = 0;
        while i < self.sessions.len()
            invariant
                i <= self.sessions.len(),
                entries@ == timer_entries(self@.projects, self@.sessions.take(i as int), now),
            decreases self.sessions.len() - i,
        {
            let s = self.sessions[i];
            proof {
                assert(self@.sessions.take(i + 1).drop_last() =~= self@.sessions.take(i as int));
                lemma_first_match_is_first(self@.projects, project_has_id(s.project_id));
            }
            if let Some(pi) = find_project(&self.projects, s.project_id) {
                proof {
                    lemma_first_match_is_first(self@.projects[pi as int].tasks, task_has_id(s.task_id));
                }
                if let Some(ti) = find_task(&self.projects[pi].tasks, s.task_id) {
                    let elapsed: u64 = if now >= s.started_at {
                        now - s.started_at
                    } else {
                        0
                    };
                    entries.push(
                        TimerEntry {
                            task_id: s.task_id,
                            project_name: self.projects[pi].name.clone(),
                            task_name: self.projects[pi].tasks[ti].name.clone(),
                            elapsed_seconds: elapsed,
                        },
                    );
                }
            }
            i += 1;
        }
        assert(self@.sessions.take(self.sessions.len() as int) =~= self@.sessions);
        TimerState { entries }
    }
}

} // verus!

//! The records the engine works on: tasks, projects, tracking sessions and
//! the committed time entries, with the mathematical view of each.

use vstd::prelude::*;

verus! {

/// How long, in seconds, a finished task stays in the active list.
pub const DONE_HIDE_WINDOW: u64 = 18000;

/// The shortest session, in seconds, that is committed when it stops.
pub const MIN_TRACKED_SECONDS: u64 = 3;

/// One unit of work inside a project.
#[derive(Debug, PartialEq, Eq)]
pub struct Task {
    pub id: u64,
    pub project_id: u64,
    pub name: String,
    pub time_seconds: u64,
    pub done_at: Option<u64>,
    pub archived_at: Option<u64>,
}

impl Task {
    /// A task is shown in the active list at time `now` when it is not
    /// archived and either is not finished or was finished at most
    /// `DONE_HIDE_WINDOW` seconds ago.
    pub open spec fn visible_at(&self, now: u64) -> bool {
        &&& self.archived_at is None
        &&& match self.done_at {
            None => true,
            Some(d) => now - d <= DONE_HIDE_WINDOW,
        }
    }

    /// Decides `visible_at`.
    pub fn is_visible(&self, now: u64) -> (b: bool)
        ensures
            b == self.visible_at(now),
    {
        match self.archived_at {
            Some(_) => false,
            None => match self.done_at {
                None => true,
                Some(d) => d >= now || now - d <= DONE_HIDE_WINDOW,
            },
        }
    }
}

impl Clone for Task {
    fn clone(&self) -> (r: Self)
        ensures
            r == *self,
    {
        Task {
            id: self.id,
            project_id: self.project_id,
            name: self.name.clone(),
            time_seconds: self.time_seconds,
            done_at: self.done_at,
            archived_at: self.archived_at,
        }
    }
}

/// A project: an ordered list of tasks and the position of the current one.
#[derive(Debug, PartialEq, Eq)]
pub struct Project {
    pub id: u64,
    pub name: String,
    pub tasks: Vec<Task>,
    pub current_task_index: usize,
    pub archived_at: Option<u64>,
}

/// The mathematical value of a `Project`.
#[verifier::ext_equal]
pub struct ProjectView {
    pub id: u64,
    pub name: String,
    pub tasks: Seq<Task>,
    pub current_task_index: usize,
    pub archived_at: Option<u64>,
}

impl View for Project {
    type V = ProjectView;

    open spec fn view(&self) -> ProjectView {
        ProjectView {
            id: self.id,
            name: self.name,
            tasks: self.tasks@,
            current_task_index: self.current_task_index,
            archived_at: self.archived_at,
        }
    }
}

impl ProjectView {
    /// The task position is a position of the list, or 0 where the list is
    /// empty.
    pub open spec fn index_valid(self) -> bool {
        self.current_task_index < self.tasks.len() || self.current_task_index == 0
    }
}

/// The values of a list of projects.
pub open spec fn projects_view(s: Seq<Project>) -> Seq<ProjectView> {
    s.map_values(|p: Project| p@)
}

/// The values of a list with one more project are the values of the list
/// with the value of that project added.
pub proof fn lemma_projects_view_push(s: Seq<Project>, p: Project)
    ensures
        projects_view(s.push(p)) == projects_view(s).push(p@),
{
    assert(projects_view(s.push(p)) =~= projects_view(s).push(p@));
}

/// Copies a list of tasks.
pub fn clone_tasks(v: &Vec<Task>) -> (r: Vec<Task>)
    ensures
        r@ == v@,
{
    let mut r: Vec<Task> = Vec::new();
    let mut i: usize = 0;
    while i < v.len()
        invariant
            i <= v.len(),
            r@ == v@.take(i as int),
        decreases v.len() - i,
    {
        r.push(v[i].clone());
        assert(v@.take(i + 1) =~= v@.take(i as int).push(v@[i as int]));
        i += 1;
    }
    assert(v@.take(v.len() as int) =~= v@);
    r
}

impl Clone for Project {
    fn clone(&self) -> (r: Self)
        ensures
            r@ == self@,
    {
        Project {
            id: self.id,
            name: self.name.clone(),
            tasks: clone_tasks(&self.tasks),
            current_task_index: self.current_task_index,
            archived_at: self.archived_at,
        }
    }
}

/// Copies a list of projects.
pub fn clone_projects(v: &Vec<Project>) -> (r: Vec<Project>)
    ensures
        projects_view(r@) == projects_view(v@),
{
    let mut r: Vec<Project> = Vec::new();
    let mut i: usize = 0;
    while i < v.len()
        invariant
            i <= v.len(),
            projects_view(r@) == projects_view(v@.take(i as int)),
        decreases v.len() - i,
    {
        let ghost before = r@;
        let p = v[i].clone();
        proof {
            lemma_projects_view_push(before, p);
            lemma_projects_view_push(v@.take(i as int), v@[i as int]);
            assert(v@.take(i + 1) =~= v@.take(i as int).push(v@[i as int]));
        }
        r.push(p);
        i += 1;
    }
    assert(v@.take(v.len() as int) =~= v@);
    r
}

/// A running measurement of time against one task.
#[derive(Clone, Copy, Debug, PartialEq, Eq, Structural)]
pub struct ActiveTracking {
    pub project_id: u64,
    pub task_id: u64,
    pub started_at: u64,
}

/// A committed span of measured time.
#[derive(Clone, Copy, Debug, PartialEq, Eq, Structural)]
pub struct TimeEntry {
    pub id: u64,
    pub project_id: u64,
    pub task_id: u64,
    pub start_time: u64,
    pub end_time: u64,
    pub duration_seconds: u64,
}

} // verus!

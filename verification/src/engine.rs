//! The live state of the engine: the projects in rotation, the running
//! sessions, the id counters and the store that mirrors them.

use vstd::prelude::*;
use crate::model::{clone_projects, projects_view, ActiveTracking, Project, ProjectView, Task};
use crate::seq_util::{first_match, lemma_first_match_found, lemma_first_match_none};
use crate::store::{ProjectRow, Store, StoreView, StoreWrite, TaskRow};

verus! {

/// Holds of the projects with this id.
pub open spec fn project_has_id(id: u64) -> spec_fn(ProjectView) -> bool {
    |p: ProjectView| p.id == id
}

/// Holds of the tasks with this id.
pub open spec fn task_has_id(id: u64) -> spec_fn(Task) -> bool {
    |t: Task| t.id == id
}

/// Holds of the sessions that run against the given task.
pub open spec fn session_of_task(task_id: u64) -> spec_fn(ActiveTracking) -> bool {
    |s: ActiveTracking| s.task_id == task_id
}

/// The position of the first project with this id.
pub open spec fn project_index(ps: Seq<ProjectView>, id: u64) -> Option<int> {
    first_match(ps, project_has_id(id))
}

/// The position of the first task with this id.
pub open spec fn task_index(ts: Seq<Task>, id: u64) -> Option<int> {
    first_match(ts, task_has_id(id))
}

/// The position of the first session that runs against the given task.
pub open spec fn session_index(ss: Seq<ActiveTracking>, task_id: u64) -> Option<int> {
    first_match(ss, session_of_task(task_id))
}

/// A position of an executable list as a position of its value.
pub open spec fn position(r: Option<usize>) -> Option<int> {
    match r {
        Some(i) => Some(i as int),
        None => None,
    }
}

/// No two sessions run against the same task.
pub open spec fn sessions_distinct(ss: Seq<ActiveTracking>) -> bool {
    forall|i: int, j: int| 0 <= i < j < ss.len() ==> ss[i].task_id != ss[j].task_id
}

/// Every project id is below `next_project_id` and every task id below
/// `next_task_id`.
pub open spec fn projects_below(ps: Seq<ProjectView>, next_project_id: u64, next_task_id: u64) -> bool {
    &&& forall|i: int| 0 <= i < ps.len() ==> (#[trigger] ps[i]).id < next_project_id
    &&& forall|i: int, j: int|
        0 <= i < ps.len() && 0 <= j < ps[i].tasks.len() ==> (#[trigger] ps[i].tasks[j]).id
            < next_task_id
}

/// No two projects carry the same id.
pub open spec fn project_ids_distinct(ps: Seq<ProjectView>) -> bool {
    forall|i: int, j: int|
        0 <= i < j < ps.len() ==> (#[trigger] ps[i]).id != (#[trigger] ps[j]).id
}

/// No two tasks carry the same id, in whatever projects they stand.
#[verifier::opaque]
pub open spec fn task_ids_distinct(ps: Seq<ProjectView>) -> bool {
    forall|i: int, j: int, k: int, l: int|
        0 <= i < ps.len() && 0 <= j < ps[i].tasks.len() && 0 <= k < ps.len() && 0 <= l
            < ps[k].tasks.len() && (i != k || j != l) ==> (#[trigger] ps[i].tasks[j]).id != (
        #[trigger] ps[k].tasks[l]).id
}

/// The store files every task of the rotation under the project that holds
/// it: a task row with the id of a task in rotation names the project in
/// which that task stands.
#[verifier::opaque]
pub open spec fn owners_agree(ps: Seq<ProjectView>, rows: Seq<TaskRow>) -> bool {
    forall|i: int, j: int, k: int|
        0 <= i < ps.len() && 0 <= j < ps[i].tasks.len() && 0 <= k < rows.len() && (
        #[trigger] ps[i].tasks[j]).id == (#[trigger] rows[k]).task.id
            ==> rows[k].task.project_id == ps[i].id
}

/// The store says of every task of the rotation what the rotation says: a
/// task row with the id of a task in rotation holds that task, with its
/// name, its time and its stamps.
#[verifier::opaque]
pub open spec fn rows_mirror(ps: Seq<ProjectView>, rows: Seq<TaskRow>) -> bool {
    forall|i: int, j: int, k: int|
        0 <= i < ps.len() && 0 <= j < ps[i].tasks.len() && 0 <= k < rows.len() && (
        #[trigger] ps[i].tasks[j]).id == (#[trigger] rows[k]).task.id ==> rows[k].task
            == ps[i].tasks[j]
}

/// The store says of every project of the rotation what the rotation says:
/// a project row with the id of a project in rotation carries its name and
/// no archive stamp.
#[verifier::opaque]
pub open spec fn names_mirror(ps: Seq<ProjectView>, rows: Seq<ProjectRow>) -> bool {
    forall|i: int, k: int|
        0 <= i < ps.len() && 0 <= k < rows.len() && (#[trigger] ps[i]).id == (#[trigger] rows[k]).id
            ==> rows[k].name == ps[i].name && rows[k].archived_at is None
}

/// Every project keeps its task position inside its task list.
pub open spec fn indices_valid(ps: Seq<ProjectView>) -> bool {
    forall|i: int| 0 <= i < ps.len() ==> (#[trigger] ps[i]).index_valid()
}

impl StoreView {
    /// Every project row id is below `next_project_id` and every task row id
    /// below `next_task_id`.
    pub open spec fn ids_below(self, next_project_id: u64, next_task_id: u64) -> bool {
        &&& forall|i: int|
            0 <= i < self.projects.len() ==> (#[trigger] self.projects[i]).id < next_project_id
        &&& forall|i: int|
            0 <= i < self.tasks.len() ==> (#[trigger] self.tasks[i]).task.id < next_task_id
    }
}

/// A write adds no row with an id at or above the counters.
pub open spec fn write_below(w: StoreWrite, next_project_id: u64, next_task_id: u64) -> bool {
    match w {
        StoreWrite::InsertProject { id, .. } => id < next_project_id,
        StoreWrite::InsertTask { id, .. } => id < next_task_id,
        _ => true,
    }
}

/// The projects with task `ti` of project `pi` replaced.
pub open spec fn replace_task(ps: Seq<ProjectView>, pi: int, ti: int, t: Task) -> Seq<ProjectView> {
    ps.update(pi, ProjectView { tasks: ps[pi].tasks.update(ti, t), ..ps[pi] })
}

/// The value of a project that may be absent.
pub open spec fn view_of(r: Option<Project>) -> Option<ProjectView> {
    match r {
        Some(p) => Some(p@),
        None => None,
    }
}

/// The mathematical value of an `Engine`.
#[verifier::ext_equal]
pub struct EngineView {
    /// The durable tables and the journal of writes.
    pub store: StoreView,
    /// The projects in rotation, in rotation order.
    pub projects: Seq<ProjectView>,
    /// The position of the current project.
    pub current_project_index: usize,
    /// The id that the next project receives.
    pub next_project_id: u64,
    /// The id that the next task receives.
    pub next_task_id: u64,
    /// The running sessions, oldest first.
    pub sessions: Seq<ActiveTracking>,
}

impl EngineView {
    /// The invariant of the engine: the store keeps its order, every
    /// position points into its list (or is 0 where the list is empty), no
    /// task has two sessions, no two projects and no two tasks carry the same
    /// id, the store files every task under the project that holds it and
    /// says of it what the rotation says, and the counters are above every id
    /// in use.
    pub open spec fn wf(self) -> bool {
        &&& self.store.wf()
        &&& project_ids_distinct(self.projects)
        &&& task_ids_distinct(self.projects)
        &&& owners_agree(self.projects, self.store.tasks)
        &&& rows_mirror(self.projects, self.store.tasks)
        &&& names_mirror(self.projects, self.store.projects)
        &&& (self.current_project_index < self.projects.len() || self.current_project_index == 0)
        &&& indices_valid(self.projects)
        &&& sessions_distinct(self.sessions)
        &&& projects_below(self.projects, self.next_project_id, self.next_task_id)
        &&& self.store.ids_below(self.next_project_id, self.next_task_id)
    }

    /// The first project with this id, where there is one.
    pub open spec fn project_with_id(self, id: u64) -> Option<ProjectView> {
        match project_index(self.projects, id) {
            Some(i) => Some(self.projects[i]),
            None => None,
        }
    }

    /// The current project, where there is one.
    pub open spec fn current_project(self) -> Option<ProjectView> {
        if self.current_project_index < self.projects.len() {
            Some(self.projects[self.current_project_index as int])
        } else {
            None
        }
    }
}

/// The rotation and tracking engine.
pub struct Engine {
    pub(crate) store: Store,
    pub(crate) projects: Vec<Project>,
    pub(crate) current_project_index: usize,
    pub(crate) next_project_id: u64,
    pub(crate) next_task_id: u64,
    pub(crate) sessions: Vec<ActiveTracking>,
}

/// The position of the first project with this id.
pub fn find_project(ps: &Vec<Project>, id: u64) -> (r: Option<usize>)
    ensures
        position(r) == project_index(projects_view(ps@), id),
{
    let ghost pv = projects_view(ps@);
    let mut i: usize = 0;
    while i < ps.len()
        invariant
            i <= ps.len(),
            pv == projects_view(ps@),
            forall|j: int| 0 <= j < i ==> !#[trigger] project_has_id(id)(pv[j]),
        decreases ps.len() - i,
    {
        if ps[i].id == id {
            proof {
                assert(project_has_id(id)(pv[i as int]));
                lemma_first_match_found(pv, project_has_id(id), i as int);
            }
            return Some(i);
        }
        i += 1;
    }
    proof {
        lemma_first_match_none(pv, project_has_id(id));
    }
    None
}

/// The position of the first task with this id.
pub fn find_task(ts: &Vec<Task>, id: u64) -> (r: Option<usize>)
    ensures
        position(r) == task_index(ts@, id),
{
    let mut i: usize = 0;
    while i < ts.len()
        invariant
            i <= ts.len(),
            forall|j: int| 0 <= j < i ==> !#[trigger] task_has_id(id)(ts@[j]),
        decreases ts.len() - i,
    {
        if ts[i].id == id {
            proof {
                assert(task_has_id(id)(ts@[i as int]));
                lemma_first_match_found(ts@, task_has_id(id), i as int);
            }
            return Some(i);
        }
        i += 1;
    }
    proof {
        lemma_first_match_none(ts@, task_has_id(id));
    }
    None
}

/// The position of the first session that runs against the given task.
pub fn find_session(ss: &Vec<ActiveTracking>, task_id: u64) -> (r: Option<usize>)
    ensures
        position(r) == session_index(ss@, task_id),
{
    let mut i: usize = 0;
    while i < ss.len()
        invariant
            i <= ss.len(),
            forall|j: int| 0 <= j < i ==> !#[trigger] session_of_task(task_id)(ss@[j]),
        decreases ss.len() - i,
    {
        if ss[i].task_id == task_id {
            proof {
                assert(session_of_task(task_id)(ss@[i as int]));
                lemma_first_match_found(ss@, session_of_task(task_id), i as int);
            }
            return Some(i);
        }
        i += 1;
    }
    proof {
        lemma_first_match_none(ss@, session_of_task(task_id));
    }
    None
}

impl Engine {
    /// The value of the engine.
    pub open(crate) spec fn view(&self) -> EngineView {
        EngineView {
            store: self.store@,
            projects: projects_view(self.projects@),
            current_project_index: self.current_project_index,
            next_project_id: self.next_project_id,
            next_task_id: self.next_task_id,
            sessions: self.sessions@,
        }
    }

    /// The projects in rotation.
    pub fn get_projects(&self) -> (r: Vec<Project>)
        ensures
            projects_view(r@) == self@.projects,
    {
        clone_projects(&self.projects)
    }

    /// The position of the current project.
    pub fn get_current_project_index(&self) -> (r: usize)
        ensures
            r == self@.current_project_index,
    {
        self.current_project_index
    }

    /// The running sessions, oldest first.
    pub fn get_active_tracking(&self) -> (r: Vec<ActiveTracking>)
        ensures
            r@ == self@.sessions,
    {
        let mut r: Vec<ActiveTracking> = Vec::new();
        let mut i: usize = 0;
        while i < self.sessions.len()
            invariant
                i <= self.sessions.len(),
                r@ == self.sessions@.take(i as int),
            decreases self.sessions.len() - i,
        {
            r.push(self.sessions[i]);
            assert(self.sessions@.take(i + 1) =~= self.sessions@.take(i as int).push(
                self.sessions@[i as int],
            ));
            i += 1;
        }
        assert(self.sessions@.take(self.sessions.len() as int) =~= self.sessions@);
        r
    }

    /// The current project, where there is one.
    pub fn get_current_project(&self) -> (r: Option<Project>)
        requires
            self@.wf(),
        ensures
            view_of(r) == self@.current_project(),
    {
        if self.projects.len() == 0 {
            None
        } else {
            Some(self.projects[self.current_project_index].clone())
        }
    }

    /// The store that mirrors the engine.
    pub fn store(&self) -> (r: &Store)
        ensures
            r@ == self@.store,
    {
        &self.store
    }

    /// Hands out the writes that were made since the journal was last taken,
    /// oldest first, for a durable backend to replay.
    pub fn take_journal(&mut self) -> (r: Vec<StoreWrite>)
        ensures
            r@ == old(self)@.store.journal,
            final(self)@ == (EngineView {
                store: StoreView { journal: Seq::empty(), ..old(self)@.store },
                ..old(self)@
            }),
            old(self)@.wf() ==> final(self)@.wf(),
    {
        self.store.take_journal()
    }
}

} // verus!

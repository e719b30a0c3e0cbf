//! The invariant of the engine holds of every state that its operations
//! reach.

use vstd::prelude::*;
use crate::engine::{
    indices_valid, names_mirror, owners_agree, project_has_id, project_ids_distinct, project_index,
    projects_below, replace_task, rows_mirror, session_index, session_of_task, sessions_distinct,
    task_has_id, task_ids_distinct, task_index, write_below, EngineView,
};
use crate::laws::lemma_sessions_dropped_keeps_rows;
use crate::model::{ActiveTracking, ProjectView, Task, TimeEntry};
use crate::projects::{clamped, fresh_project, fresh_task, session_not_of_project, sessions_dropped};
use crate::queries::{
    loaded_project, project_row_active, project_row_has_id, task_row_has_id, task_row_visible,
};
use crate::rotation::{done_stamp, lemma_circular, lemma_target_is_a_position};
use crate::schema::lemma_loaded_project_below;
use crate::seq_util::{
    first_match, lemma_filter_members, lemma_first_match_found, lemma_first_match_is_first,
    lemma_first_match_none,
};
use crate::store::{
    entries_ordered, entry_not_of_project, entry_not_of_task, has_project_row, has_task_row,
    project_id_below, project_row_is_not, project_rows_ordered, project_rows_updated,
    session_not_of_task, task_id_below, task_row_is_not, task_row_not_of_project, task_rows_ordered,
    task_rows_updated, ProjectChange, ProjectRow, StoreView, StoreWrite, TaskChange, TaskRow,
};
use crate::tracking::elapsed_at;

verus! {

/// The keys of a list rise from the front.
pub open spec fn rising<A>(s: Seq<A>, key: spec_fn(A) -> u64) -> bool {
    forall|i: int, j: int| 0 <= i < j < s.len() ==> key(#[trigger] s[i]) < key(#[trigger] s[j])
}

/// A filter keeps the keys of a list rising.
pub proof fn lemma_filter_keeps_rising<A>(s: Seq<A>, p: spec_fn(A) -> bool, key: spec_fn(A) -> u64)
    requires
        rising(s, key),
    ensures
        rising(s.filter(p), key),
    decreases s.len(),
{
    reveal(Seq::filter);
    if s.len() > 0 {
        let t = s.drop_last();
        assert forall|i: int, j: int| 0 <= i < j < t.len() implies key(#[trigger] t[i]) < key(
            #[trigger] t[j],
        ) by {
            assert(key(s[i]) < key(s[j]));
        }
        lemma_filter_keeps_rising(t, p, key);
        lemma_filter_members(t, p);
        let f = s.filter(p);
        let ft = t.filter(p);
        assert forall|i: int, j: int| 0 <= i < j < f.len() implies key(#[trigger] f[i]) < key(
            #[trigger] f[j],
        ) by {
            if j < ft.len() {
                assert(key(ft[i]) < key(ft[j]));
            } else {
                assert(ft.contains(ft[i]));
                assert(t.contains(ft[i]));
                let k = choose|k: int| 0 <= k < t.len() && t[k] == ft[i];
                assert(key(s[k]) < key(s[s.len() - 1]));
            }
        }
    }
}

/// The key of a project row: its id.
pub open spec fn project_row_id() -> spec_fn(ProjectRow) -> u64 {
    |r: ProjectRow| r.id
}

/// The key of a task row: its id.
pub open spec fn task_row_id() -> spec_fn(TaskRow) -> u64 {
    |r: TaskRow| r.task.id
}

/// The key of a time entry: its id.
pub open spec fn entry_id() -> spec_fn(TimeEntry) -> u64 {
    |e: TimeEntry| e.id
}

/// A filter keeps project rows in order.
pub proof fn lemma_filter_keeps_project_rows(s: Seq<ProjectRow>, p: spec_fn(ProjectRow) -> bool)
    requires
        project_rows_ordered(s),
    ensures
        project_rows_ordered(s.filter(p)),
{
    assert forall|i: int, j: int| 0 <= i < j < s.len() implies project_row_id()(#[trigger] s[i])
        < project_row_id()(#[trigger] s[j]) by {
        assert(s[i].id < s[j].id);
    }
    lemma_filter_keeps_rising(s, p, project_row_id());
    lemma_filter_members(s, p);
    let f = s.filter(p);
    assert forall|i: int, j: int| 0 <= i < j < f.len() implies f[i].id < f[j].id by {
        assert(project_row_id()(f[i]) < project_row_id()(f[j]));
    }
    assert forall|i: int| 0 <= i < f.len() implies f[i].id < u64::MAX by {
        assert(f.contains(f[i]));
        assert(s.contains(f[i]));
        let k = choose|k: int| 0 <= k < s.len() && s[k] == f[i];
        assert(s[k].id < u64::MAX);
    }
}

/// A filter keeps task rows in order.
pub proof fn lemma_filter_keeps_task_rows(s: Seq<TaskRow>, p: spec_fn(TaskRow) -> bool)
    requires
        task_rows_ordered(s),
    ensures
        task_rows_ordered(s.filter(p)),
{
    assert forall|i: int, j: int| 0 <= i < j < s.len() implies task_row_id()(#[trigger] s[i])
        < task_row_id()(#[trigger] s[j]) by {
        assert(s[i].task.id < s[j].task.id);
    }
    lemma_filter_keeps_rising(s, p, task_row_id());
    lemma_filter_members(s, p);
    let f = s.filter(p);
    assert forall|i: int, j: int| 0 <= i < j < f.len() implies f[i].task.id < f[j].task.id by {
        assert(task_row_id()(f[i]) < task_row_id()(f[j]));
    }
    assert forall|i: int| 0 <= i < f.len() implies f[i].task.id < u64::MAX by {
        assert(f.contains(f[i]));
        assert(s.contains(f[i]));
        let k = choose|k: int| 0 <= k < s.len() && s[k] == f[i];
        assert(s[k].task.id < u64::MAX);
    }
}

/// A filter keeps time entries in order.
pub proof fn lemma_filter_keeps_entries(s: Seq<TimeEntry>, p: spec_fn(TimeEntry) -> bool)
    requires
        entries_ordered(s),
    ensures
        entries_ordered(s.filter(p)),
{
    assert forall|i: int, j: int| 0 <= i < j < s.len() implies entry_id()(#[trigger] s[i])
        < entry_id()(#[trigger] s[j]) by {
        assert(s[i].id < s[j].id);
    }
    lemma_filter_keeps_rising(s, p, entry_id());
    lemma_filter_members(s, p);
    let f = s.filter(p);
    assert forall|i: int, j: int| 0 <= i < j < f.len() implies f[i].id < f[j].id by {
        assert(entry_id()(f[i]) < entry_id()(f[j]));
    }
    assert forall|i: int| 0 <= i < f.len() implies f[i].id < u64::MAX by {
        assert(f.contains(f[i]));
        assert(s.contains(f[i]));
        let k = choose|k: int| 0 <= k < s.len() && s[k] == f[i];
        assert(s[k].id < u64::MAX);
    }
}

/// In a list whose keys rise, the elements with a key below a bound that no
/// element carries are the first ones, and the others lie above the bound.
pub proof fn lemma_rank_splits<A>(s: Seq<A>, below: spec_fn(A) -> bool, key: spec_fn(A) -> u64, bound: u64)
    requires
        rising(s, key),
        forall|a: A| #[trigger] below(a) == (key(a) < bound),
        forall|i: int| 0 <= i < s.len() ==> key(#[trigger] s[i]) != bound,
    ensures
        s.filter(below).len() <= s.len(),
        forall|i: int| 0 <= i < s.filter(below).len() ==> key(#[trigger] s[i]) < bound,
        forall|i: int| s.filter(below).len() <= i < s.len() ==> key(#[trigger] s[i]) > bound,
    decreases s.len(),
{
    reveal(Seq::filter);
    if s.len() > 0 {
        let t = s.drop_last();
        assert forall|i: int, j: int| 0 <= i < j < t.len() implies key(#[trigger] t[i]) < key(
            #[trigger] t[j],
        ) by {
            assert(key(s[i]) < key(s[j]));
        }
        assert forall|i: int| 0 <= i < t.len() implies key(#[trigger] t[i]) != bound by {
            assert(key(s[i]) != bound);
        }
        lemma_rank_splits(t, below, key, bound);
        let pos_t = t.filter(below).len() as int;
        let last = s[s.len() - 1];
        assert forall|i: int| 0 <= i < pos_t implies key(#[trigger] s[i]) < bound by {
            assert(key(t[i]) < bound);
        }
        if below(last) {
            if pos_t < t.len() {
                assert(key(t[pos_t]) > bound);
                assert(key(s[pos_t]) < key(s[s.len() - 1]));
            }
        } else {
            assert(key(last) != bound);
            assert forall|i: int| pos_t <= i < s.len() implies key(#[trigger] s[i]) > bound by {
                if i < t.len() {
                    assert(key(t[i]) > bound);
                }
            }
        }
    }
}

/// A write keeps the tables of the store in order.
pub proof fn lemma_apply_keeps_order(s: StoreView, w: StoreWrite)
    requires
        s.wf(),
    ensures
        s.apply(w).wf(),
{
    let a = s.apply(w);
    match w {
        StoreWrite::InsertProject { id, name } => {
            if !(id == u64::MAX || has_project_row(s.projects, id)) {
                assert forall|i: int, j: int| 0 <= i < j < s.projects.len() implies project_row_id()(
                    #[trigger] s.projects[i],
                ) < project_row_id()(#[trigger] s.projects[j]) by {
                    assert(s.projects[i].id < s.projects[j].id);
                }
                assert forall|r: ProjectRow| #[trigger]
                    project_id_below(id)(r) == (project_row_id()(r) < id) by {}
                assert forall|i: int| 0 <= i < s.projects.len() implies project_row_id()(
                    #[trigger] s.projects[i],
                ) != id by {
                    assert(s.projects[i].id != id);
                }
                lemma_rank_splits(s.projects, project_id_below(id), project_row_id(), id);
                let pos = s.projects.filter(project_id_below(id)).len() as int;
                assert forall|x: int, y: int| 0 <= x < y < a.projects.len() implies a.projects[x].id
                    < a.projects[y].id by {
                    let x0 = if x < pos { x } else { x - 1 };
                    let y0 = if y < pos { y } else { y - 1 };
                    if x != pos && y != pos {
                        assert(s.projects[x0].id < s.projects[y0].id);
                    } else if x == pos {
                        assert(project_row_id()(s.projects[y0]) > id);
                    } else {
                        assert(project_row_id()(s.projects[x0]) < id);
                    }
                }
                assert forall|x: int| 0 <= x < a.projects.len() implies a.projects[x].id
                    < u64::MAX by {
                    let x0 = if x < pos { x } else { x - 1 };
                    if x != pos {
                        assert(s.projects[x0].id < u64::MAX);
                    }
                }
            }
        },
        StoreWrite::InsertTask { id, project_id, name, time_seconds } => {
            if !(id == u64::MAX || has_task_row(s.tasks, id)) {
                assert forall|i: int, j: int| 0 <= i < j < s.tasks.len() implies task_row_id()(
                    #[trigger] s.tasks[i],
                ) < task_row_id()(#[trigger] s.tasks[j]) by {
                    assert(s.tasks[i].task.id < s.tasks[j].task.id);
                }
                assert forall|r: TaskRow| #[trigger]
                    task_id_below(id)(r) == (task_row_id()(r) < id) by {}
                assert forall|i: int| 0 <= i < s.tasks.len() implies task_row_id()(
                    #[trigger] s.tasks[i],
                ) != id by {
                    assert(s.tasks[i].task.id != id);
                }
                lemma_rank_splits(s.tasks, task_id_below(id), task_row_id(), id);
                let pos = s.tasks.filter(task_id_below(id)).len() as int;
                assert forall|x: int, y: int| 0 <= x < y < a.tasks.len() implies a.tasks[x].task.id
                    < a.tasks[y].task.id by {
                    let x0 = if x < pos { x } else { x - 1 };
                    let y0 = if y < pos { y } else { y - 1 };
                    if x != pos && y != pos {
                        assert(s.tasks[x0].task.id < s.tasks[y0].task.id);
                    } else if x == pos {
                        assert(task_row_id()(s.tasks[y0]) > id);
                    } else {
                        assert(task_row_id()(s.tasks[x0]) < id);
                    }
                }
                assert forall|x: int| 0 <= x < a.tasks.len() implies a.tasks[x].task.id
                    < u64::MAX by {
                    let x0 = if x < pos { x } else { x - 1 };
                    if x != pos {
                        assert(s.tasks[x0].task.id < u64::MAX);
                    }
                }
            }
        },
        StoreWrite::UpdateTask(id, change) => {
            assert forall|x: int, y: int| 0 <= x < y < a.tasks.len() implies a.tasks[x].task.id
                < a.tasks[y].task.id by {
                assert(s.tasks[x].task.id < s.tasks[y].task.id);
            }
            assert forall|x: int| 0 <= x < a.tasks.len() implies a.tasks[x].task.id < u64::MAX by {
                assert(s.tasks[x].task.id < u64::MAX);
            }
        },
        StoreWrite::UpdateProject(id, change) => {
            assert forall|x: int, y: int| 0 <= x < y < a.projects.len() implies a.projects[x].id
                < a.projects[y].id by {
                assert(s.projects[x].id < s.projects[y].id);
            }
            assert forall|x: int| 0 <= x < a.projects.len() implies a.projects[x].id < u64::MAX by {
                assert(s.projects[x].id < u64::MAX);
            }
        },
        StoreWrite::SetProjectTasksArchived { project_id, archived_at } => {
            assert forall|x: int, y: int| 0 <= x < y < a.tasks.len() implies a.tasks[x].task.id
                < a.tasks[y].task.id by {
                assert(s.tasks[x].task.id < s.tasks[y].task.id);
            }
            assert forall|x: int| 0 <= x < a.tasks.len() implies a.tasks[x].task.id < u64::MAX by {
                assert(s.tasks[x].task.id < u64::MAX);
            }
        },
        StoreWrite::MigrateLegacyFlags { now } => {
            assert forall|x: int, y: int| 0 <= x < y < a.tasks.len() implies a.tasks[x].task.id
                < a.tasks[y].task.id by {
                assert(s.tasks[x].task.id < s.tasks[y].task.id);
            }
            assert forall|x: int| 0 <= x < a.tasks.len() implies a.tasks[x].task.id < u64::MAX by {
                assert(s.tasks[x].task.id < u64::MAX);
            }
            assert forall|x: int, y: int| 0 <= x < y < a.projects.len() implies a.projects[x].id
                < a.projects[y].id by {
                assert(s.projects[x].id < s.projects[y].id);
            }
            assert forall|x: int| 0 <= x < a.projects.len() implies a.projects[x].id < u64::MAX by {
                assert(s.projects[x].id < u64::MAX);
            }
        },
        StoreWrite::DeleteProject { id } => {
            lemma_filter_keeps_entries(s.entries, entry_not_of_project(id));
            lemma_filter_keeps_task_rows(s.tasks, task_row_not_of_project(id));
            lemma_filter_keeps_project_rows(s.projects, project_row_is_not(id));
        },
        StoreWrite::DeleteTask { id } => {
            lemma_filter_keeps_entries(s.entries, entry_not_of_task(id));
            lemma_filter_keeps_task_rows(s.tasks, task_row_is_not(id));
        },
        StoreWrite::InsertTimeEntry {
            project_id,
            task_id,
            start_time,
            end_time,
            duration_seconds,
        } => {
            let n = s.entries.len() as int;
            assert forall|x: int, y: int| 0 <= x < y < a.entries.len() implies a.entries[x].id
                < a.entries[y].id by {
                if y < n {
                    assert(s.entries[x].id < s.entries[y].id);
                } else if x < n - 1 {
                    assert(s.entries[x].id < s.entries[n - 1].id);
                }
            }
            assert forall|x: int| 0 <= x < a.entries.len() implies a.entries[x].id < u64::MAX by {
                if x < n {
                    assert(s.entries[x].id < u64::MAX);
                }
            }
        },
        _ => {},
    }
}

/// A write that adds no id at or above the counters keeps the store in
/// order and its ids below the counters.
pub proof fn lemma_apply_keeps_store(s: StoreView, w: StoreWrite, np: u64, nt: u64)
    requires
        s.wf(),
        s.ids_below(np, nt),
        write_below(w, np, nt),
    ensures
        s.apply(w).wf(),
        s.apply(w).ids_below(np, nt),
{
    lemma_apply_keeps_order(s, w);
    lemma_apply_keeps_ids_below(s, w, np, nt);
}

/// Raising a counter keeps the ids below it.
pub proof fn lemma_ids_below_raise(s: EngineView, np: u64, nt: u64)
    requires
        s.wf(),
        s.next_project_id <= np,
        s.next_task_id <= nt,
    ensures
        projects_below(s.projects, np, nt),
        s.store.ids_below(np, nt),
{
    assert forall|i: int| 0 <= i < s.projects.len() implies (#[trigger] s.projects[i]).id < np by {}
    assert forall|i: int, j: int|
        0 <= i < s.projects.len() && 0 <= j < s.projects[i].tasks.len() implies (
    #[trigger] s.projects[i].tasks[j]).id < nt by {}
    assert forall|i: int| 0 <= i < s.store.projects.len() implies (
    #[trigger] s.store.projects[i]).id < np by {}
    assert forall|i: int| 0 <= i < s.store.tasks.len() implies (#[trigger] s.store.tasks[i]).task.id
        < nt by {}
}

/// Taking a project out of the list keeps the positions valid and the ids
/// below the counters.
pub proof fn lemma_remove_project_keeps(ps: Seq<ProjectView>, pos: int, np: u64, nt: u64)
    requires
        0 <= pos < ps.len(),
        indices_valid(ps),
        projects_below(ps, np, nt),
    ensures
        indices_valid(ps.remove(pos)),
        projects_below(ps.remove(pos), np, nt),
{
    let after = ps.remove(pos);
    assert forall|i: int| 0 <= i < after.len() implies (#[trigger] after[i]).index_valid() by {
        if i < pos {
            assert(ps[i].index_valid());
        } else {
            assert(ps[i + 1].index_valid());
        }
    }
    assert forall|i: int| 0 <= i < after.len() implies (#[trigger] after[i]).id < np by {
        if i < pos {
            assert(ps[i].id < np);
        } else {
            assert(ps[i + 1].id < np);
        }
    }
    assert forall|i: int, j: int|
        0 <= i < after.len() && 0 <= j < after[i].tasks.len() implies (#[trigger] after[i].tasks[j]).id
        < nt by {
        if i < pos {
            assert(ps[i].tasks[j].id < nt);
        } else {
            assert(ps[i + 1].tasks[j].id < nt);
        }
    }
}

/// Replacing one project by one with the same id, a valid position and task
/// ids below the counter keeps the positions valid and the ids below the
/// counters.
pub proof fn lemma_update_project_keeps(ps: Seq<ProjectView>, pi: int, p: ProjectView, np: u64, nt: u64)
    requires
        0 <= pi < ps.len(),
        p.id == ps[pi].id,
        p.index_valid(),
        forall|j: int| 0 <= j < p.tasks.len() ==> (#[trigger] p.tasks[j]).id < nt,
        indices_valid(ps),
        projects_below(ps, np, nt),
    ensures
        indices_valid(ps.update(pi, p)),
        projects_below(ps.update(pi, p), np, nt),
{
    let after = ps.update(pi, p);
    assert forall|i: int| 0 <= i < after.len() implies (#[trigger] after[i]).index_valid() by {
        if i != pi {
            assert(ps[i].index_valid());
        }
    }
    assert forall|i: int| 0 <= i < after.len() implies (#[trigger] after[i]).id < np by {
        assert(ps[i].id < np);
    }
    assert forall|i: int, j: int|
        0 <= i < after.len() && 0 <= j < after[i].tasks.len() implies (#[trigger] after[i].tasks[j]).id
        < nt by {
        if i != pi {
            assert(ps[i].tasks[j].id < nt);
        }
    }
}

/// Taking the sessions of one project out of a list without repeated tasks
/// leaves a list without repeated tasks.
pub proof fn lemma_project_filter_keeps_distinct(ss: Seq<ActiveTracking>, project_id: u64)
    requires
        sessions_distinct(ss),
    ensures
        sessions_distinct(ss.filter(session_not_of_project(project_id))),
    decreases ss.len(),
{
    reveal(Seq::filter);
    if ss.len() > 0 {
        let t = ss.drop_last();
        lemma_project_filter_keeps_distinct(t, project_id);
        lemma_filter_members(t, session_not_of_project(project_id));
        let f = ss.filter(session_not_of_project(project_id));
        let ft = t.filter(session_not_of_project(project_id));
        assert forall|i: int, j: int| 0 <= i < j < f.len() implies f[i].task_id != f[j].task_id by {
            if j < ft.len() {
                assert(ft[i].task_id != ft[j].task_id);
            } else {
                assert(f[j] == ss.last());
                assert(ft.contains(ft[i]));
                assert(t.contains(ft[i]));
                let k = choose|k: int| 0 <= k < t.len() && t[k] == ft[i];
                assert(ss[k].task_id != ss[ss.len() - 1].task_id);
            }
        }
    }
}

/// Replacing a task by one with the same id keeps the positions valid and
/// the ids below the counters.
pub proof fn lemma_replace_task_keeps(ps: Seq<ProjectView>, pi: int, ti: int, t: Task, np: u64, nt: u64)
    requires
        0 <= pi < ps.len(),
        0 <= ti < ps[pi].tasks.len(),
        t.id == ps[pi].tasks[ti].id,
        indices_valid(ps),
        projects_below(ps, np, nt),
    ensures
        indices_valid(replace_task(ps, pi, ti, t)),
        projects_below(replace_task(ps, pi, ti, t), np, nt),
{
    let after = replace_task(ps, pi, ti, t);
    assert forall|i: int| 0 <= i < after.len() implies (#[trigger] after[i]).index_valid() by {
        assert(ps[i].index_valid());
    }
    assert forall|i: int| 0 <= i < after.len() implies (#[trigger] after[i]).id < np by {
        assert(ps[i].id < np);
    }
    assert forall|i: int, j: int|
        0 <= i < after.len() && 0 <= j < after[i].tasks.len() implies (#[trigger] after[i].tasks[j]).id
        < nt by {
        assert(ps[i].tasks[j].id < nt);
    }
}

/// A write that adds no id at or above the counters leaves every row id
/// below them.
pub proof fn lemma_apply_keeps_ids_below(s: StoreView, w: StoreWrite, np: u64, nt: u64)
    requires
        s.ids_below(np, nt),
        write_below(w, np, nt),
    ensures
        s.apply(w).ids_below(np, nt),
{
    let a = s.apply(w);
    match w {
        StoreWrite::DeleteProject { id } => {
            lemma_filter_members(s.projects, project_row_is_not(id));
            lemma_filter_members(s.tasks, task_row_not_of_project(id));
            assert forall|i: int| 0 <= i < a.projects.len() implies (#[trigger] a.projects[i]).id
                < np by {
                assert(a.projects.contains(a.projects[i]));
                assert(s.projects.contains(a.projects[i]));
            }
            assert forall|i: int| 0 <= i < a.tasks.len() implies (#[trigger] a.tasks[i]).task.id
                < nt by {
                assert(a.tasks.contains(a.tasks[i]));
                assert(s.tasks.contains(a.tasks[i]));
            }
        },
        StoreWrite::DeleteTask { id } => {
            lemma_filter_members(s.tasks, task_row_is_not(id));
            assert forall|i: int| 0 <= i < a.tasks.len() implies (#[trigger] a.tasks[i]).task.id
                < nt by {
                assert(a.tasks.contains(a.tasks[i]));
                assert(s.tasks.contains(a.tasks[i]));
            }
        },
        StoreWrite::InsertProject { id, name } => {
            assert forall|i: int| 0 <= i < a.projects.len() implies (#[trigger] a.projects[i]).id
                < np by {
                if a.projects != s.projects {
                    let pos = s.projects.filter(project_id_below(id)).len() as int;
                    s.projects.lemma_filter_len(project_id_below(id));
                    if i < pos {
                        assert(a.projects[i] == s.projects[i]);
                    } else if i > pos {
                        assert(a.projects[i] == s.projects[i - 1]);
                    }
                }
            }
        },
        StoreWrite::InsertTask { id, project_id, name, time_seconds } => {
            assert forall|i: int| 0 <= i < a.tasks.len() implies (#[trigger] a.tasks[i]).task.id
                < nt by {
                if a.tasks != s.tasks {
                    let pos = s.tasks.filter(task_id_below(id)).len() as int;
                    s.tasks.lemma_filter_len(task_id_below(id));
                    if i < pos {
                        assert(a.tasks[i] == s.tasks[i]);
                    } else if i > pos {
                        assert(a.tasks[i] == s.tasks[i - 1]);
                    }
                }
            }
        },
        StoreWrite::UpdateTask(id, change) => {
            assert forall|i: int| 0 <= i < a.tasks.len() implies (#[trigger] a.tasks[i]).task.id
                < nt by {
                assert(s.tasks[i].task.id < nt);
            }
        },
        StoreWrite::UpdateProject(id, change) => {
            assert forall|i: int| 0 <= i < a.projects.len() implies (#[trigger] a.projects[i]).id
                < np by {
                assert(s.projects[i].id < np);
            }
        },
        StoreWrite::SetProjectTasksArchived { project_id, archived_at } => {
            assert forall|i: int| 0 <= i < a.tasks.len() implies (#[trigger] a.tasks[i]).task.id
                < nt by {
                assert(s.tasks[i].task.id < nt);
            }
        },
        StoreWrite::MigrateLegacyFlags { now } => {
            assert forall|i: int| 0 <= i < a.tasks.len() implies (#[trigger] a.tasks[i]).task.id
                < nt by {
                assert(s.tasks[i].task.id < nt);
            }
            assert forall|i: int| 0 <= i < a.projects.len() implies (#[trigger] a.projects[i]).id
                < np by {
                assert(s.projects[i].id < np);
            }
        },
        _ => {},
    }
}

/// Taking the sessions of one task out of a list without repeated tasks
/// leaves a list without repeated tasks.
pub proof fn lemma_filter_keeps_distinct(ss: Seq<ActiveTracking>, task_id: u64)
    requires
        sessions_distinct(ss),
    ensures
        sessions_distinct(ss.filter(session_not_of_task(task_id))),
    decreases ss.len(),
{
    reveal(Seq::filter);
    if ss.len() > 0 {
        let t = ss.drop_last();
        lemma_filter_keeps_distinct(t, task_id);
        lemma_filter_members(t, session_not_of_task(task_id));
        let f = ss.filter(session_not_of_task(task_id));
        let ft = t.filter(session_not_of_task(task_id));
        assert forall|i: int, j: int| 0 <= i < j < f.len() implies f[i].task_id != f[j].task_id by {
            if j < ft.len() {
                assert(ft[i].task_id != ft[j].task_id);
            } else {
                assert(f[j] == ss.last());
                assert(ft.contains(ft[i]));
                assert(t.contains(ft[i]));
                let k = choose|k: int| 0 <= k < t.len() && t[k] == ft[i];
                assert(ss[k].task_id != ss[ss.len() - 1].task_id);
            }
        }
    }
}

/// Two lists of projects with the same ids in the same places give the same
/// place to an id.
pub proof fn lemma_same_ids_same_index(a: Seq<ProjectView>, b: Seq<ProjectView>, id: u64)
    requires
        a.len() == b.len(),
        forall|i: int| 0 <= i < a.len() ==> (#[trigger] a[i]).id == b[i].id,
    ensures
        project_index(a, id) == project_index(b, id),
{
    lemma_first_match_is_first(a, project_has_id(id));
    match project_index(a, id) {
        Some(k) => {
            assert(project_has_id(id)(b[k]));
            assert forall|j: int| 0 <= j < k implies !#[trigger] project_has_id(id)(b[j]) by {
                assert(!project_has_id(id)(a[j]));
            }
            lemma_first_match_found(b, project_has_id(id), k);
        },
        None => {
            assert forall|j: int| 0 <= j < b.len() implies !#[trigger] project_has_id(id)(b[j]) by {
                assert(!project_has_id(id)(a[j]));
            }
            lemma_first_match_none(b, project_has_id(id));
        },
    }
}

/// The ids of the rotation are sound: no two projects and no two tasks carry
/// the same id, and the task rows name the projects that hold the tasks.
pub open spec fn ids_sound(ps: Seq<ProjectView>, rows: Seq<TaskRow>) -> bool {
    &&& project_ids_distinct(ps)
    &&& task_ids_distinct(ps)
    &&& owners_agree(ps, rows)
}

/// Two lists of projects carry the same ids in the same places.
pub open spec fn same_shape(a: Seq<ProjectView>, b: Seq<ProjectView>) -> bool {
    &&& a.len() == b.len()
    &&& forall|i: int|
        0 <= i < a.len() ==> (#[trigger] a[i]).id == b[i].id && a[i].tasks.len()
            == b[i].tasks.len()
    &&& forall|i: int, j: int|
        0 <= i < a.len() && 0 <= j < a[i].tasks.len() ==> (#[trigger] a[i].tasks[j]).id
            == b[i].tasks[j].id
}

/// Every row of `new` carries the id and the project of a row of `old`.
pub open spec fn rows_within(new: Seq<TaskRow>, old: Seq<TaskRow>) -> bool {
    forall|k: int|
        0 <= k < new.len() ==> exists|m: int|
            0 <= m < old.len() && (#[trigger] old[m]).task.id == (#[trigger] new[k]).task.id
                && old[m].task.project_id == new[k].task.project_id
}

/// Ids stay sound where the projects keep their shape.
pub proof fn lemma_same_shape_sound(a: Seq<ProjectView>, b: Seq<ProjectView>, rows: Seq<TaskRow>)
    requires
        same_shape(a, b),
        ids_sound(a, rows),
    ensures
        ids_sound(b, rows),
{
    reveal(task_ids_distinct);
    reveal(owners_agree);
    assert forall|i: int, j: int| 0 <= i < j < b.len() implies (#[trigger] b[i]).id != (
    #[trigger] b[j]).id by {
        assert(a[i].id == b[i].id && a[j].id == b[j].id);
    }
    assert forall|i: int, j: int, k: int, l: int|
        0 <= i < b.len() && 0 <= j < b[i].tasks.len() && 0 <= k < b.len() && 0 <= l
            < b[k].tasks.len() && (i != k || j != l) implies (#[trigger] b[i].tasks[j]).id != (
    #[trigger] b[k].tasks[l]).id by {
        assert(a[i].id == b[i].id && a[k].id == b[k].id);
        assert(a[i].tasks[j].id == b[i].tasks[j].id);
        assert(a[k].tasks[l].id == b[k].tasks[l].id);
    }
    assert forall|i: int, j: int, k: int|
        0 <= i < b.len() && 0 <= j < b[i].tasks.len() && 0 <= k < rows.len() && (
        #[trigger] b[i].tasks[j]).id == (#[trigger] rows[k]).task.id implies rows[k].task.project_id
        == b[i].id by {
        assert(a[i].id == b[i].id);
        assert(a[i].tasks[j].id == b[i].tasks[j].id);
    }
}

/// Ids stay sound where every project of the new list is a project of the
/// old one, with its tasks, and none is taken twice.
pub proof fn lemma_reindexed_sound(
    a: Seq<ProjectView>,
    b: Seq<ProjectView>,
    rows: Seq<TaskRow>,
    f: spec_fn(int) -> int,
)
    requires
        ids_sound(a, rows),
        forall|i: int|
            0 <= i < b.len() ==> 0 <= #[trigger] f(i) < a.len() && b[i].id == a[f(i)].id
                && b[i].tasks == a[f(i)].tasks,
        forall|i: int, j: int| 0 <= i < j < b.len() ==> #[trigger] f(i) != #[trigger] f(j),
    ensures
        ids_sound(b, rows),
{
    reveal(task_ids_distinct);
    reveal(owners_agree);
    assert forall|i: int, j: int| 0 <= i < j < b.len() implies (#[trigger] b[i]).id != (
    #[trigger] b[j]).id by {
        let (x, y) = (f(i), f(j));
        if x < y {
            assert(a[x].id != a[y].id);
        } else {
            assert(a[y].id != a[x].id);
        }
    }
    assert forall|i: int, j: int, k: int, l: int|
        0 <= i < b.len() && 0 <= j < b[i].tasks.len() && 0 <= k < b.len() && 0 <= l
            < b[k].tasks.len() && (i != k || j != l) implies (#[trigger] b[i].tasks[j]).id != (
    #[trigger] b[k].tasks[l]).id by {
        let (x, y) = (f(i), f(k));
        if i < k {
            assert(f(i) != f(k));
        } else if k < i {
            assert(f(k) != f(i));
        }
        assert(a[x].tasks[j].id != a[y].tasks[l].id);
    }
    assert forall|i: int, j: int, k: int|
        0 <= i < b.len() && 0 <= j < b[i].tasks.len() && 0 <= k < rows.len() && (
        #[trigger] b[i].tasks[j]).id == (#[trigger] rows[k]).task.id implies rows[k].task.project_id
        == b[i].id by {
        assert(a[f(i)].tasks[j].id == rows[k].task.id);
    }
}

/// Ids stay sound where a task leaves its project.
pub proof fn lemma_task_removed_sound(
    a: Seq<ProjectView>,
    pi: int,
    ti: int,
    current: usize,
    rows: Seq<TaskRow>,
)
    requires
        0 <= pi < a.len(),
        0 <= ti < a[pi].tasks.len(),
        ids_sound(a, rows),
    ensures
        ids_sound(
            a.update(
                pi,
                ProjectView { tasks: a[pi].tasks.remove(ti), current_task_index: current, ..a[pi] },
            ),
            rows,
        ),
{
    reveal(task_ids_distinct);
    reveal(owners_agree);
    let b = a.update(
        pi,
        ProjectView { tasks: a[pi].tasks.remove(ti), current_task_index: current, ..a[pi] },
    );
    assert forall|i: int, j: int| 0 <= i < j < b.len() implies (#[trigger] b[i]).id != (
    #[trigger] b[j]).id by {
        assert(a[i].id != a[j].id);
    }
    assert forall|i: int, j: int, k: int, l: int|
        0 <= i < b.len() && 0 <= j < b[i].tasks.len() && 0 <= k < b.len() && 0 <= l
            < b[k].tasks.len() && (i != k || j != l) implies (#[trigger] b[i].tasks[j]).id != (
    #[trigger] b[k].tasks[l]).id by {
        let j0 = if i == pi && j >= ti { j + 1 } else { j };
        let l0 = if k == pi && l >= ti { l + 1 } else { l };
        assert(b[i].tasks[j] == a[i].tasks[j0]);
        assert(b[k].tasks[l] == a[k].tasks[l0]);
        assert(a[i].tasks[j0].id != a[k].tasks[l0].id);
    }
    assert forall|i: int, j: int, k: int|
        0 <= i < b.len() && 0 <= j < b[i].tasks.len() && 0 <= k < rows.len() && (
        #[trigger] b[i].tasks[j]).id == (#[trigger] rows[k]).task.id implies rows[k].task.project_id
        == b[i].id by {
        let j0 = if i == pi && j >= ti { j + 1 } else { j };
        assert(b[i].tasks[j] == a[i].tasks[j0]);
        assert(a[i].tasks[j0].id == rows[k].task.id);
    }
}

/// Ids stay sound where a project joins whose id and whose task ids the
/// rotation does not hold, and whose tasks the rows file under it.
pub proof fn lemma_project_pushed_sound(a: Seq<ProjectView>, p: ProjectView, rows: Seq<TaskRow>)
    requires
        ids_sound(a, rows),
        forall|i: int| 0 <= i < a.len() ==> (#[trigger] a[i]).id != p.id,
        forall|j: int, l: int| 0 <= j < l < p.tasks.len() ==> (#[trigger] p.tasks[j]).id != (
        #[trigger] p.tasks[l]).id,
        forall|i: int, j: int, l: int|
            0 <= i < a.len() && 0 <= j < a[i].tasks.len() && 0 <= l < p.tasks.len() ==> (
            #[trigger] a[i].tasks[j]).id != (#[trigger] p.tasks[l]).id,
        forall|l: int, k: int|
            0 <= l < p.tasks.len() && 0 <= k < rows.len() && (#[trigger] p.tasks[l]).id == (
            #[trigger] rows[k]).task.id ==> rows[k].task.project_id == p.id,
    ensures
        ids_sound(a.push(p), rows),
{
    reveal(task_ids_distinct);
    reveal(owners_agree);
    let b = a.push(p);
    let n = a.len() as int;
    assert forall|i: int, j: int| 0 <= i < j < b.len() implies (#[trigger] b[i]).id != (
    #[trigger] b[j]).id by {
        if j < n {
            assert(a[i].id != a[j].id);
        } else {
            assert(a[i].id != p.id);
        }
    }
    assert forall|i: int, j: int, k: int, l: int|
        0 <= i < b.len() && 0 <= j < b[i].tasks.len() && 0 <= k < b.len() && 0 <= l
            < b[k].tasks.len() && (i != k || j != l) implies (#[trigger] b[i].tasks[j]).id != (
    #[trigger] b[k].tasks[l]).id by {
        if i < n && k < n {
            assert(a[i].tasks[j].id != a[k].tasks[l].id);
        } else if i < n {
            assert(a[i].tasks[j].id != p.tasks[l].id);
        } else if k < n {
            assert(a[k].tasks[l].id != p.tasks[j].id);
        } else if j < l {
            assert(p.tasks[j].id != p.tasks[l].id);
        } else {
            assert(p.tasks[l].id != p.tasks[j].id);
        }
    }
    assert forall|i: int, j: int, k: int|
        0 <= i < b.len() && 0 <= j < b[i].tasks.len() && 0 <= k < rows.len() && (
        #[trigger] b[i].tasks[j]).id == (#[trigger] rows[k]).task.id implies rows[k].task.project_id
        == b[i].id by {
        if i < n {
            assert(a[i].tasks[j].id == rows[k].task.id);
        } else {
            assert(p.tasks[j].id == rows[k].task.id);
        }
    }
}

/// Ids stay sound where a task joins a project, the rotation does not hold
/// its id, and the rows file it under that project.
pub proof fn lemma_task_pushed_sound(a: Seq<ProjectView>, pi: int, t: Task, rows: Seq<TaskRow>)
    requires
        0 <= pi < a.len(),
        ids_sound(a, rows),
        forall|i: int, j: int|
            0 <= i < a.len() && 0 <= j < a[i].tasks.len() ==> (#[trigger] a[i].tasks[j]).id != t.id,
        forall|k: int|
            0 <= k < rows.len() && (#[trigger] rows[k]).task.id == t.id ==> rows[k].task.project_id
                == a[pi].id,
    ensures
        ids_sound(a.update(pi, ProjectView { tasks: a[pi].tasks.push(t), ..a[pi] }), rows),
{
    reveal(task_ids_distinct);
    reveal(owners_agree);
    let b = a.update(pi, ProjectView { tasks: a[pi].tasks.push(t), ..a[pi] });
    let n = a[pi].tasks.len() as int;
    assert forall|i: int, j: int| 0 <= i < j < b.len() implies (#[trigger] b[i]).id != (
    #[trigger] b[j]).id by {
        assert(a[i].id != a[j].id);
    }
    assert forall|i: int, j: int, k: int, l: int|
        0 <= i < b.len() && 0 <= j < b[i].tasks.len() && 0 <= k < b.len() && 0 <= l
            < b[k].tasks.len() && (i != k || j != l) implies (#[trigger] b[i].tasks[j]).id != (
    #[trigger] b[k].tasks[l]).id by {
        let first_new = i == pi && j == n;
        let second_new = k == pi && l == n;
        if !first_new && !second_new {
            assert(a[i].tasks[j].id != a[k].tasks[l].id);
        } else if first_new {
            assert(a[k].tasks[l].id != t.id);
        } else {
            assert(a[i].tasks[j].id != t.id);
        }
    }
    assert forall|i: int, j: int, k: int|
        0 <= i < b.len() && 0 <= j < b[i].tasks.len() && 0 <= k < rows.len() && (
        #[trigger] b[i].tasks[j]).id == (#[trigger] rows[k]).task.id implies rows[k].task.project_id
        == b[i].id by {
        if !(i == pi && j == n) {
            assert(a[i].tasks[j].id == rows[k].task.id);
        }
    }
}

/// The task rows keep naming the right projects where every row carries the
/// id and the project of a row that was there.
pub proof fn lemma_rows_within_agree(ps: Seq<ProjectView>, old: Seq<TaskRow>, new: Seq<TaskRow>)
    requires
        owners_agree(ps, old),
        rows_within(new, old),
    ensures
        owners_agree(ps, new),
{
    reveal(task_ids_distinct);
    reveal(owners_agree);
    assert forall|i: int, j: int, k: int|
        0 <= i < ps.len() && 0 <= j < ps[i].tasks.len() && 0 <= k < new.len() && (
        #[trigger] ps[i].tasks[j]).id == (#[trigger] new[k]).task.id implies new[k].task.project_id
        == ps[i].id by {
        let m = choose|m: int|
            0 <= m < old.len() && (#[trigger] old[m]).task.id == new[k].task.id
                && old[m].task.project_id == new[k].task.project_id;
        assert(ps[i].tasks[j].id == old[m].task.id);
    }
}

/// A write that adds no task row leaves every row with the id and the
/// project of a row that was there.
pub proof fn lemma_apply_rows_within(s: StoreView, w: StoreWrite)
    requires
        !(w is InsertTask),
    ensures
        rows_within(s.apply(w).tasks, s.tasks),
{
    let new = s.apply(w).tasks;
    let old = s.tasks;
    match w {
        StoreWrite::DeleteProject { id } => {
            lemma_filter_members(old, task_row_not_of_project(id));
            assert forall|k: int| 0 <= k < new.len() implies exists|m: int|
                0 <= m < old.len() && (#[trigger] old[m]).task.id == (#[trigger] new[k]).task.id
                    && old[m].task.project_id == new[k].task.project_id by {
                assert(new.contains(new[k]));
                assert(old.contains(new[k]));
                let m = choose|m: int| 0 <= m < old.len() && old[m] == new[k];
                assert(old[m].task.id == new[k].task.id);
            }
        },
        StoreWrite::DeleteTask { id } => {
            lemma_filter_members(old, task_row_is_not(id));
            assert forall|k: int| 0 <= k < new.len() implies exists|m: int|
                0 <= m < old.len() && (#[trigger] old[m]).task.id == (#[trigger] new[k]).task.id
                    && old[m].task.project_id == new[k].task.project_id by {
                assert(new.contains(new[k]));
                assert(old.contains(new[k]));
                let m = choose|m: int| 0 <= m < old.len() && old[m] == new[k];
                assert(old[m].task.id == new[k].task.id);
            }
        },
        StoreWrite::Reset => {},
        _ => {
            assert(new.len() == old.len());
            assert forall|k: int| 0 <= k < new.len() implies exists|m: int|
                0 <= m < old.len() && (#[trigger] old[m]).task.id == (#[trigger] new[k]).task.id
                    && old[m].task.project_id == new[k].task.project_id by {
                assert(old[k].task.id == new[k].task.id);
            }
        },
    }
}

/// A write keeps the task rows naming the right projects, where a task row
/// that it adds carries an id that the rotation does not hold.
pub proof fn lemma_apply_keeps_agree(ps: Seq<ProjectView>, s: StoreView, w: StoreWrite)
    requires
        owners_agree(ps, s.tasks),
        w matches StoreWrite::InsertTask { id, .. } ==> forall|i: int, j: int|
            0 <= i < ps.len() && 0 <= j < ps[i].tasks.len() ==> (#[trigger] ps[i].tasks[j]).id != id,
    ensures
        owners_agree(ps, s.apply(w).tasks),
{
    reveal(task_ids_distinct);
    reveal(owners_agree);
    match w {
        StoreWrite::InsertTask { id, project_id, name, time_seconds } => {
            let new = s.apply(w).tasks;
            let old = s.tasks;
            assert forall|i: int, j: int, k: int|
                0 <= i < ps.len() && 0 <= j < ps[i].tasks.len() && 0 <= k < new.len() && (
                #[trigger] ps[i].tasks[j]).id == (#[trigger] new[k]).task.id implies new[k].task.project_id
                == ps[i].id by {
                if new != old {
                    let pos = old.filter(task_id_below(id)).len() as int;
                    old.lemma_filter_len(task_id_below(id));
                    if k < pos {
                        assert(new[k] == old[k]);
                        assert(ps[i].tasks[j].id == old[k].task.id);
                    } else if k > pos {
                        assert(new[k] == old[k - 1]);
                        assert(ps[i].tasks[j].id == old[k - 1].task.id);
                    }
                }
            }
        },
        _ => {
            lemma_apply_rows_within(s, w);
            lemma_rows_within_agree(ps, s.tasks, s.apply(w).tasks);
        },
    }
}

/// No task of the rotation carries this id.
pub open spec fn holds_no_task(ps: Seq<ProjectView>, id: u64) -> bool {
    forall|i: int, j: int|
        0 <= i < ps.len() && 0 <= j < ps[i].tasks.len() ==> (#[trigger] ps[i].tasks[j]).id != id
}

/// No project of the rotation carries this id.
pub open spec fn holds_no_project(ps: Seq<ProjectView>, id: u64) -> bool {
    forall|i: int| 0 <= i < ps.len() ==> (#[trigger] ps[i]).id != id
}

/// The rows keep mirroring the rotation where every project of the new list
/// is a project of the old one, with its tasks.
pub proof fn lemma_mirror_reindexed(
    a: Seq<ProjectView>,
    b: Seq<ProjectView>,
    rows: Seq<TaskRow>,
    f: spec_fn(int) -> int,
)
    requires
        rows_mirror(a, rows),
        forall|i: int|
            0 <= i < b.len() ==> 0 <= #[trigger] f(i) < a.len() && b[i].tasks == a[f(i)].tasks,
    ensures
        rows_mirror(b, rows),
{
    reveal(rows_mirror);
    assert forall|i: int, j: int, k: int|
        0 <= i < b.len() && 0 <= j < b[i].tasks.len() && 0 <= k < rows.len() && (
        #[trigger] b[i].tasks[j]).id == (#[trigger] rows[k]).task.id implies rows[k].task
        == b[i].tasks[j] by {
        assert(a[f(i)].tasks[j].id == rows[k].task.id);
    }
}

/// The rows keep mirroring the rotation where a project changes but what is
/// not in its tasks.
pub proof fn lemma_mirror_same_tasks(a: Seq<ProjectView>, pi: int, p: ProjectView, rows: Seq<TaskRow>)
    requires
        0 <= pi < a.len(),
        rows_mirror(a, rows),
        p.tasks == a[pi].tasks,
    ensures
        rows_mirror(a.update(pi, p), rows),
{
    lemma_mirror_reindexed(a, a.update(pi, p), rows, |i: int| i);
}

/// The rows keep mirroring the rotation where a task leaves its project.
pub proof fn lemma_mirror_task_removed(
    a: Seq<ProjectView>,
    pi: int,
    ti: int,
    current: usize,
    rows: Seq<TaskRow>,
)
    requires
        0 <= pi < a.len(),
        0 <= ti < a[pi].tasks.len(),
        rows_mirror(a, rows),
        task_ids_distinct(a),
    ensures
        rows_mirror(
            a.update(
                pi,
                ProjectView { tasks: a[pi].tasks.remove(ti), current_task_index: current, ..a[pi] },
            ),
            rows,
        ),
        holds_no_task(
            a.update(
                pi,
                ProjectView { tasks: a[pi].tasks.remove(ti), current_task_index: current, ..a[pi] },
            ),
            a[pi].tasks[ti].id,
        ),
{
    reveal(rows_mirror);
    reveal(task_ids_distinct);
    let b = a.update(
        pi,
        ProjectView { tasks: a[pi].tasks.remove(ti), current_task_index: current, ..a[pi] },
    );
    assert forall|i: int, j: int, k: int|
        0 <= i < b.len() && 0 <= j < b[i].tasks.len() && 0 <= k < rows.len() && (
        #[trigger] b[i].tasks[j]).id == (#[trigger] rows[k]).task.id implies rows[k].task
        == b[i].tasks[j] by {
        let j0 = if i == pi && j >= ti { j + 1 } else { j };
        assert(b[i].tasks[j] == a[i].tasks[j0]);
        assert(a[i].tasks[j0].id == rows[k].task.id);
    }
    assert forall|i: int, j: int| 0 <= i < b.len() && 0 <= j < b[i].tasks.len() implies (
    #[trigger] b[i].tasks[j]).id != a[pi].tasks[ti].id by {
        let j0 = if i == pi && j >= ti { j + 1 } else { j };
        assert(b[i].tasks[j] == a[i].tasks[j0]);
        assert(a[i].tasks[j0].id != a[pi].tasks[ti].id);
    }
}

/// The rows keep mirroring the rotation where a project joins whose tasks
/// are what the rows with their ids hold.
pub proof fn lemma_mirror_project_pushed(a: Seq<ProjectView>, p: ProjectView, rows: Seq<TaskRow>)
    requires
        rows_mirror(a, rows),
        forall|l: int, k: int|
            0 <= l < p.tasks.len() && 0 <= k < rows.len() && (#[trigger] p.tasks[l]).id == (
            #[trigger] rows[k]).task.id ==> rows[k].task == p.tasks[l],
    ensures
        rows_mirror(a.push(p), rows),
{
    reveal(rows_mirror);
    let b = a.push(p);
    assert forall|i: int, j: int, k: int|
        0 <= i < b.len() && 0 <= j < b[i].tasks.len() && 0 <= k < rows.len() && (
        #[trigger] b[i].tasks[j]).id == (#[trigger] rows[k]).task.id implies rows[k].task
        == b[i].tasks[j] by {
        if i < a.len() {
            assert(a[i].tasks[j].id == rows[k].task.id);
        } else {
            assert(p.tasks[j].id == rows[k].task.id);
        }
    }
}

/// The rows keep mirroring the rotation where a task joins that is what the
/// rows with its id hold.
pub proof fn lemma_mirror_task_pushed(a: Seq<ProjectView>, pi: int, t: Task, rows: Seq<TaskRow>)
    requires
        0 <= pi < a.len(),
        rows_mirror(a, rows),
        forall|k: int| 0 <= k < rows.len() && (#[trigger] rows[k]).task.id == t.id ==> rows[k].task == t,
    ensures
        rows_mirror(a.update(pi, ProjectView { tasks: a[pi].tasks.push(t), ..a[pi] }), rows),
{
    reveal(rows_mirror);
    let b = a.update(pi, ProjectView { tasks: a[pi].tasks.push(t), ..a[pi] });
    let n = a[pi].tasks.len() as int;
    assert forall|i: int, j: int, k: int|
        0 <= i < b.len() && 0 <= j < b[i].tasks.len() && 0 <= k < rows.len() && (
        #[trigger] b[i].tasks[j]).id == (#[trigger] rows[k]).task.id implies rows[k].task
        == b[i].tasks[j] by {
        if !(i == pi && j == n) {
            assert(a[i].tasks[j].id == rows[k].task.id);
        }
    }
}

/// The rows keep mirroring the rotation where a task changes in the rotation
/// and in its row alike.
pub proof fn lemma_mirror_task_changed(
    a: Seq<ProjectView>,
    rows: Seq<TaskRow>,
    pi: int,
    ti: int,
    change: TaskChange,
)
    requires
        0 <= pi < a.len(),
        0 <= ti < a[pi].tasks.len(),
        rows_mirror(a, rows),
        task_ids_distinct(a),
    ensures
        rows_mirror(
            replace_task(a, pi, ti, change.on(a[pi].tasks[ti])),
            task_rows_updated(rows, a[pi].tasks[ti].id, change),
        ),
{
    reveal(rows_mirror);
    reveal(task_ids_distinct);
    let t = a[pi].tasks[ti];
    let b = replace_task(a, pi, ti, change.on(t));
    let new = task_rows_updated(rows, t.id, change);
    assert forall|i: int, j: int, k: int|
        0 <= i < b.len() && 0 <= j < b[i].tasks.len() && 0 <= k < new.len() && (
        #[trigger] b[i].tasks[j]).id == (#[trigger] new[k]).task.id implies new[k].task
        == b[i].tasks[j] by {
        assert(new[k].task.id == rows[k].task.id);
        assert(b[i].tasks[j].id == a[i].tasks[j].id);
        assert(a[i].tasks[j].id == rows[k].task.id);
        if i == pi && j == ti {
        } else {
            assert(a[i].tasks[j].id != a[pi].tasks[ti].id);
        }
    }
}

/// A write keeps the rows mirroring the rotation, where it changes no row
/// of a task that the rotation holds.
pub proof fn lemma_apply_keeps_mirror(ps: Seq<ProjectView>, s: StoreView, w: StoreWrite)
    requires
        rows_mirror(ps, s.tasks),
        owners_agree(ps, s.tasks),
        !(w is MigrateLegacyFlags),
        w matches StoreWrite::InsertTask { id, .. } ==> holds_no_task(ps, id),
        w matches StoreWrite::UpdateTask(id, _) ==> holds_no_task(ps, id),
        w matches StoreWrite::SetProjectTasksArchived { project_id, .. } ==> holds_no_project(
            ps,
            project_id,
        ),
    ensures
        rows_mirror(ps, s.apply(w).tasks),
{
    reveal(rows_mirror);
    reveal(owners_agree);
    let new = s.apply(w).tasks;
    let old = s.tasks;
    match w {
        StoreWrite::InsertTask { id, project_id, name, time_seconds } => {
            assert forall|i: int, j: int, k: int|
                0 <= i < ps.len() && 0 <= j < ps[i].tasks.len() && 0 <= k < new.len() && (
                #[trigger] ps[i].tasks[j]).id == (#[trigger] new[k]).task.id implies new[k].task
                == ps[i].tasks[j] by {
                if new != old {
                    let pos = old.filter(task_id_below(id)).len() as int;
                    old.lemma_filter_len(task_id_below(id));
                    if k < pos {
                        assert(new[k] == old[k]);
                        assert(ps[i].tasks[j].id == old[k].task.id);
                    } else if k > pos {
                        assert(new[k] == old[k - 1]);
                        assert(ps[i].tasks[j].id == old[k - 1].task.id);
                    }
                }
            }
        },
        StoreWrite::DeleteProject { id } => {
            lemma_filter_members(old, task_row_not_of_project(id));
            assert forall|i: int, j: int, k: int|
                0 <= i < ps.len() && 0 <= j < ps[i].tasks.len() && 0 <= k < new.len() && (
                #[trigger] ps[i].tasks[j]).id == (#[trigger] new[k]).task.id implies new[k].task
                == ps[i].tasks[j] by {
                assert(new.contains(new[k]));
                assert(old.contains(new[k]));
                let m = choose|m: int| 0 <= m < old.len() && old[m] == new[k];
                assert(ps[i].tasks[j].id == old[m].task.id);
            }
        },
        StoreWrite::DeleteTask { id } => {
            lemma_filter_members(old, task_row_is_not(id));
            assert forall|i: int, j: int, k: int|
                0 <= i < ps.len() && 0 <= j < ps[i].tasks.len() && 0 <= k < new.len() && (
                #[trigger] ps[i].tasks[j]).id == (#[trigger] new[k]).task.id implies new[k].task
                == ps[i].tasks[j] by {
                assert(new.contains(new[k]));
                assert(old.contains(new[k]));
                let m = choose|m: int| 0 <= m < old.len() && old[m] == new[k];
                assert(ps[i].tasks[j].id == old[m].task.id);
            }
        },
        StoreWrite::Reset => {},
        _ => {
            assert(new.len() == old.len());
            assert forall|i: int, j: int, k: int|
                0 <= i < ps.len() && 0 <= j < ps[i].tasks.len() && 0 <= k < new.len() && (
                #[trigger] ps[i].tasks[j]).id == (#[trigger] new[k]).task.id implies new[k].task
                == ps[i].tasks[j] by {
                assert(new[k].task.id == old[k].task.id);
                assert(ps[i].tasks[j].id == old[k].task.id);
            }
        },
    }
}

/// The project rows keep mirroring the rotation where every project of the
/// new list carries the id and the name of a project of the old one.
pub proof fn lemma_names_kept(a: Seq<ProjectView>, b: Seq<ProjectView>, rows: Seq<ProjectRow>)
    requires
        names_mirror(a, rows),
        forall|i: int|
            0 <= i < b.len() ==> exists|m: int|
                0 <= m < a.len() && (#[trigger] a[m]).id == (#[trigger] b[i]).id && a[m].name
                    == b[i].name,
    ensures
        names_mirror(b, rows),
{
    reveal(names_mirror);
    assert forall|i: int, k: int|
        0 <= i < b.len() && 0 <= k < rows.len() && (#[trigger] b[i]).id == (
        #[trigger] rows[k]).id implies rows[k].name == b[i].name && rows[k].archived_at is None by {
        let m = choose|m: int|
            0 <= m < a.len() && (#[trigger] a[m]).id == b[i].id && a[m].name == b[i].name;
        assert(a[m].id == rows[k].id);
    }
}

/// The project rows keep mirroring the rotation where the projects keep
/// their ids and names in their places.
pub proof fn lemma_names_in_place(a: Seq<ProjectView>, b: Seq<ProjectView>, rows: Seq<ProjectRow>)
    requires
        names_mirror(a, rows),
        a.len() == b.len(),
        forall|i: int| 0 <= i < a.len() ==> (#[trigger] b[i]).id == a[i].id && b[i].name == a[i].name,
    ensures
        names_mirror(b, rows),
{
    assert forall|i: int| 0 <= i < b.len() implies exists|m: int|
        0 <= m < a.len() && (#[trigger] a[m]).id == (#[trigger] b[i]).id && a[m].name
            == b[i].name by {
        assert(a[i].id == b[i].id && a[i].name == b[i].name);
    }
    lemma_names_kept(a, b, rows);
}

/// The project rows keep mirroring the rotation where a project joins that
/// the rows with its id name alike, without an archive stamp.
pub proof fn lemma_names_project_pushed(a: Seq<ProjectView>, p: ProjectView, rows: Seq<ProjectRow>)
    requires
        names_mirror(a, rows),
        forall|k: int|
            0 <= k < rows.len() && (#[trigger] rows[k]).id == p.id ==> rows[k].name == p.name
                && rows[k].archived_at is None,
    ensures
        names_mirror(a.push(p), rows),
{
    reveal(names_mirror);
    let b = a.push(p);
    assert forall|i: int, k: int|
        0 <= i < b.len() && 0 <= k < rows.len() && (#[trigger] b[i]).id == (
        #[trigger] rows[k]).id implies rows[k].name == b[i].name && rows[k].archived_at is None by {
        if i < a.len() {
            assert(a[i].id == rows[k].id);
        }
    }
}

/// The project rows keep mirroring the rotation where a project is renamed
/// in the rotation and in its row alike.
pub proof fn lemma_names_project_renamed(a: Seq<ProjectView>, rows: Seq<ProjectRow>, pi: int, name: String)
    requires
        0 <= pi < a.len(),
        names_mirror(a, rows),
        project_ids_distinct(a),
    ensures
        names_mirror(
            a.update(pi, ProjectView { name, ..a[pi] }),
            project_rows_updated(rows, a[pi].id, ProjectChange::Name(name)),
        ),
{
    reveal(names_mirror);
    let b = a.update(pi, ProjectView { name, ..a[pi] });
    let new = project_rows_updated(rows, a[pi].id, ProjectChange::Name(name));
    assert forall|i: int, k: int|
        0 <= i < b.len() && 0 <= k < new.len() && (#[trigger] b[i]).id == (#[trigger] new[k]).id implies new[k].name
        == b[i].name && new[k].archived_at is None by {
        assert(new[k].id == rows[k].id);
        assert(a[i].id == rows[k].id);
        if i < pi {
            assert(a[i].id != a[pi].id);
        } else if pi < i {
            assert(a[pi].id != a[i].id);
        }
    }
}

/// A write keeps the project rows mirroring the rotation, where it adds,
/// renames or archives no row of a project that the rotation holds.
pub proof fn lemma_apply_keeps_names(ps: Seq<ProjectView>, s: StoreView, w: StoreWrite)
    requires
        names_mirror(ps, s.projects),
        !(w is MigrateLegacyFlags),
        w matches StoreWrite::InsertProject { id, .. } ==> holds_no_project(ps, id),
        w matches StoreWrite::UpdateProject(id, change) ==> change is CurrentTaskIndex
            || holds_no_project(ps, id),
    ensures
        names_mirror(ps, s.apply(w).projects),
{
    reveal(names_mirror);
    let new = s.apply(w).projects;
    let old = s.projects;
    match w {
        StoreWrite::InsertProject { id, name } => {
            assert forall|i: int, k: int|
                0 <= i < ps.len() && 0 <= k < new.len() && (#[trigger] ps[i]).id == (
                #[trigger] new[k]).id implies new[k].name == ps[i].name
                && new[k].archived_at is None by {
                if new != old {
                    let pos = old.filter(project_id_below(id)).len() as int;
                    old.lemma_filter_len(project_id_below(id));
                    if k < pos {
                        assert(new[k] == old[k]);
                        assert(ps[i].id == old[k].id);
                    } else if k > pos {
                        assert(new[k] == old[k - 1]);
                        assert(ps[i].id == old[k - 1].id);
                    }
                }
            }
        },
        StoreWrite::DeleteProject { id } => {
            lemma_filter_members(old, project_row_is_not(id));
            assert forall|i: int, k: int|
                0 <= i < ps.len() && 0 <= k < new.len() && (#[trigger] ps[i]).id == (
                #[trigger] new[k]).id implies new[k].name == ps[i].name
                && new[k].archived_at is None by {
                assert(new.contains(new[k]));
                assert(old.contains(new[k]));
                let m = choose|m: int| 0 <= m < old.len() && old[m] == new[k];
                assert(ps[i].id == old[m].id);
            }
        },
        StoreWrite::Reset => {},
        _ => {
            assert(new.len() == old.len());
            assert forall|i: int, k: int|
                0 <= i < ps.len() && 0 <= k < new.len() && (#[trigger] ps[i]).id == (
                #[trigger] new[k]).id implies new[k].name == ps[i].name
                && new[k].archived_at is None by {
                assert(new[k].id == old[k].id);
                assert(ps[i].id == old[k].id);
            }
        },
    }
}

/// Adding a project with a valid task position and ids below the counters
/// keeps the positions valid and the ids below the counters.
pub proof fn lemma_push_project_keeps(ps: Seq<ProjectView>, p: ProjectView, np: u64, nt: u64)
    requires
        indices_valid(ps),
        projects_below(ps, np, nt),
        p.index_valid(),
        p.id < np,
        forall|j: int| 0 <= j < p.tasks.len() ==> (#[trigger] p.tasks[j]).id < nt,
    ensures
        indices_valid(ps.push(p)),
        projects_below(ps.push(p), np, nt),
{
    let after = ps.push(p);
    assert forall|i: int| 0 <= i < after.len() implies (#[trigger] after[i]).index_valid() by {
        if i < ps.len() {
            assert(ps[i].index_valid());
        }
    }
    assert forall|i: int| 0 <= i < after.len() implies (#[trigger] after[i]).id < np by {
        if i < ps.len() {
            assert(ps[i].id < np);
        }
    }
    assert forall|i: int, j: int|
        0 <= i < after.len() && 0 <= j < after[i].tasks.len() implies (#[trigger] after[i].tasks[j]).id
        < nt by {
        if i < ps.len() {
            assert(ps[i].tasks[j].id < nt);
        }
    }
}

/// Moving a project to the front keeps the positions valid and the ids
/// below the counters.
pub proof fn lemma_promote_keeps(ps: Seq<ProjectView>, index: int, np: u64, nt: u64)
    requires
        0 <= index < ps.len(),
        indices_valid(ps),
        projects_below(ps, np, nt),
    ensures
        indices_valid(ps.remove(index).insert(0, ps[index])),
        projects_below(ps.remove(index).insert(0, ps[index]), np, nt),
{
    let after = ps.remove(index).insert(0, ps[index]);
    assert forall|i: int| 0 <= i < after.len() implies (#[trigger] after[i]).index_valid() by {
        if i == 0 {
            assert(ps[index].index_valid());
        } else if i <= index {
            assert(ps[i - 1].index_valid());
        } else {
            assert(ps[i].index_valid());
        }
    }
    assert forall|i: int| 0 <= i < after.len() implies (#[trigger] after[i]).id < np by {
        if i == 0 {
            assert(ps[index].id < np);
        } else if i <= index {
            assert(ps[i - 1].id < np);
        } else {
            assert(ps[i].id < np);
        }
    }
    assert forall|i: int, j: int|
        0 <= i < after.len() && 0 <= j < after[i].tasks.len() implies (#[trigger] after[i].tasks[j]).id
        < nt by {
        if i == 0 {
            assert(ps[index].tasks[j].id < nt);
        } else if i <= index {
            assert(ps[i - 1].tasks[j].id < nt);
        } else {
            assert(ps[i].tasks[j].id < nt);
        }
    }
}

/// Taking the sessions of a project out of the store keeps the store in
/// order and its ids below the counters.
pub proof fn lemma_sessions_dropped_keeps_store(
    store: StoreView,
    ss: Seq<ActiveTracking>,
    project_id: u64,
    np: u64,
    nt: u64,
)
    requires
        store.wf(),
        store.ids_below(np, nt),
    ensures
        sessions_dropped(store, ss, project_id).wf(),
        sessions_dropped(store, ss, project_id).ids_below(np, nt),
    decreases ss.len(),
{
    if ss.len() > 0 {
        lemma_sessions_dropped_keeps_store(store, ss.drop_last(), project_id, np, nt);
        lemma_apply_keeps_store(
            sessions_dropped(store, ss.drop_last(), project_id),
            StoreWrite::RemoveSession { task_id: ss.last().task_id },
            np,
            nt,
        );
    }
}

/// Committing a session keeps the engine valid.
pub proof fn lemma_commit_keeps_wf(s: EngineView, session: ActiveTracking, now: u64)
    requires
        s.wf(),
    ensures
        s.commit(session, now).wf(),
{
    let after = s.commit(session, now);
    if after != s {
        lemma_first_match_is_first(s.projects, project_has_id(session.project_id));
        let pi = project_index(s.projects, session.project_id).unwrap();
        lemma_first_match_is_first(s.projects[pi].tasks, task_has_id(session.task_id));
        let ti = task_index(s.projects[pi].tasks, session.task_id).unwrap();
        let task = after.projects[pi].tasks[ti];
        lemma_replace_task_keeps(s.projects, pi, ti, task, s.next_project_id, s.next_task_id);
        let change = TaskChange::Time(task.time_seconds);
        let w1 = StoreWrite::UpdateTask(task.id, change);
        lemma_apply_keeps_store(s.store, w1, s.next_project_id, s.next_task_id);
        let w2 = StoreWrite::InsertTimeEntry {
            project_id: session.project_id,
            task_id: session.task_id,
            start_time: session.started_at,
            end_time: now,
            duration_seconds: elapsed_at(session.started_at, now),
        };
        lemma_apply_keeps_store(s.store.apply(w1), w2, s.next_project_id, s.next_task_id);
        lemma_apply_keeps_agree(s.projects, s.store, w1);
        lemma_same_shape_sound(s.projects, after.projects, s.store.apply(w1).tasks);
        lemma_mirror_task_changed(s.projects, s.store.tasks, pi, ti, change);
        assert(after.projects == replace_task(s.projects, pi, ti, change.on(s.projects[pi].tasks[ti])));
        lemma_apply_keeps_agree(after.projects, s.store.apply(w1), w2);
        lemma_apply_keeps_mirror(after.projects, s.store.apply(w1), w2);
    }
    let after = s.commit(session, now);
    if after != s {
        let pi = project_index(s.projects, session.project_id).unwrap();
        let ti = task_index(s.projects[pi].tasks, session.task_id).unwrap();
        let task = after.projects[pi].tasks[ti];
        let w1 = StoreWrite::UpdateTask(task.id, TaskChange::Time(task.time_seconds));
        let w2 = StoreWrite::InsertTimeEntry {
            project_id: session.project_id,
            task_id: session.task_id,
            start_time: session.started_at,
            end_time: now,
            duration_seconds: elapsed_at(session.started_at, now),
        };
        lemma_apply_keeps_names(s.projects, s.store, w1);
        lemma_apply_keeps_names(s.projects, s.store.apply(w1), w2);
        lemma_names_in_place(s.projects, after.projects, after.store.projects);
    }
}

/// Committing a list of sessions keeps the engine valid and touches neither
/// the sessions nor the counters nor the current position.
pub proof fn lemma_commit_all_keeps_wf(s: EngineView, ss: Seq<ActiveTracking>, now: u64)
    requires
        s.wf(),
    ensures
        s.commit_all(ss, now).wf(),
        s.commit_all(ss, now).sessions == s.sessions,
        s.commit_all(ss, now).projects.len() == s.projects.len(),
    decreases ss.len(),
{
    if ss.len() > 0 {
        lemma_commit_all_keeps_wf(s, ss.drop_last(), now);
        lemma_commit_keeps_wf(s.commit_all(ss.drop_last(), now), ss.last(), now);
    }
}

/// Stopping every session keeps the engine valid.
pub proof fn lemma_stop_all_keeps_wf(s: EngineView, now: u64)
    requires
        s.wf(),
    ensures
        s.stop_all(now).wf(),
        s.stop_all(now).sessions.len() == 0,
{
    lemma_commit_all_keeps_wf(s, s.sessions, now);
    let c = s.commit_all(s.sessions, now);
    lemma_apply_keeps_store(c.store, StoreWrite::ClearSessions, c.next_project_id, c.next_task_id);
}

/// Opening a session for a task that has none keeps the engine valid.
pub proof fn lemma_begin_keeps_wf(s: EngineView, project_id: u64, task_id: u64, now: u64)
    requires
        s.wf(),
        session_index(s.sessions, task_id) is None,
    ensures
        s.begin(project_id, task_id, now).wf(),
{
    let after = s.begin(project_id, task_id, now);
    let session = ActiveTracking { project_id, task_id, started_at: now };
    lemma_apply_keeps_store(
        s.store,
        StoreWrite::AddSession { session },
        s.next_project_id,
        s.next_task_id,
    );
    lemma_first_match_is_first(s.sessions, session_of_task(task_id));
    assert forall|i: int, j: int| 0 <= i < j < after.sessions.len() implies after.sessions[i].task_id
        != after.sessions[j].task_id by {
        if j == s.sessions.len() {
            assert(!session_of_task(task_id)(s.sessions[i]));
        }
    }
}

/// Starting a session keeps the engine valid.
pub proof fn lemma_start_tracking_keeps_wf(
    s: EngineView,
    project_id: u64,
    task_id: u64,
    allow_multiple: bool,
    now: u64,
)
    requires
        s.wf(),
    ensures
        s.start_tracking(project_id, task_id, allow_multiple, now).wf(),
{
    if session_index(s.sessions, task_id) is Some {
    } else if !allow_multiple && s.sessions.len() > 0 {
        lemma_stop_all_keeps_wf(s, now);
        let stopped = s.stop_all(now);
        lemma_first_match_none(stopped.sessions, session_of_task(task_id));
        lemma_begin_keeps_wf(stopped, project_id, task_id, now);
    } else {
        lemma_begin_keeps_wf(s, project_id, task_id, now);
    }
}

/// Stopping sessions keeps the engine valid.
pub proof fn lemma_stop_tracking_keeps_wf(s: EngineView, only: Option<u64>, now: u64)
    requires
        s.wf(),
    ensures
        s.stop_tracking(only, now).wf(),
{
    match only {
        Some(t) => {
            lemma_first_match_is_first(s.sessions, session_of_task(t));
            match session_index(s.sessions, t) {
                Some(i) => {
                    lemma_commit_keeps_wf(s, s.sessions[i], now);
                    let c = s.commit(s.sessions[i], now);
                    lemma_apply_keeps_store(
                        c.store,
                        StoreWrite::RemoveSession { task_id: t },
                        c.next_project_id,
                        c.next_task_id,
                    );
                    lemma_filter_keeps_distinct(c.sessions, t);
                },
                None => {},
            }
        },
        None => {
            if s.sessions.len() > 0 {
                lemma_stop_all_keeps_wf(s, now);
            }
        },
    }
}

/// Adding a project keeps the engine valid.
pub proof fn lemma_add_project_keeps_wf(s: EngineView, name: String)
    requires
        s.wf(),
    ensures
        s.add_project(name).wf(),
{
    if s.next_project_id < u64::MAX {
        let after = s.add_project(name);
        let np = (s.next_project_id + 1) as u64;
        let w = StoreWrite::InsertProject { id: s.next_project_id, name };
        let p = fresh_project(s.next_project_id, name);
        lemma_ids_below_raise(s, np, s.next_task_id);
        lemma_apply_keeps_store(s.store, w, np, s.next_task_id);
        lemma_push_project_keeps(s.projects, p, np, s.next_task_id);
        lemma_apply_keeps_agree(s.projects, s.store, w);
        assert forall|i: int| 0 <= i < s.projects.len() implies (#[trigger] s.projects[i]).id
            != p.id by {
            assert(s.projects[i].id < s.next_project_id);
        }
        lemma_project_pushed_sound(s.projects, p, after.store.tasks);
    }
    if s.next_project_id < u64::MAX {
        let w = StoreWrite::InsertProject { id: s.next_project_id, name };
        lemma_apply_keeps_mirror(s.projects, s.store, w);
        lemma_mirror_project_pushed(
            s.projects,
            fresh_project(s.next_project_id, name),
            s.store.apply(w).tasks,
        );
    }
    if s.next_project_id < u64::MAX {
        let id = s.next_project_id;
        let w = StoreWrite::InsertProject { id, name };
        let rows = s.store.apply(w).projects;
        assert forall|i: int| 0 <= i < s.projects.len() implies (#[trigger] s.projects[i]).id
            != id by {
            assert(s.projects[i].id < id);
        }
        lemma_apply_keeps_names(s.projects, s.store, w);
        assert forall|k: int| 0 <= k < rows.len() && (#[trigger] rows[k]).id == id implies rows[k].name
            == name && rows[k].archived_at is None by {
            let old = s.store.projects;
            if rows != old {
                let pos = old.filter(project_id_below(id)).len() as int;
                old.lemma_filter_len(project_id_below(id));
                if k < pos {
                    assert(rows[k] == old[k]);
                    assert(old[k].id < id);
                } else if k > pos {
                    assert(rows[k] == old[k - 1]);
                    assert(old[k - 1].id < id);
                }
            } else {
                assert(old[k].id < id);
            }
        }
        lemma_names_project_pushed(s.projects, fresh_project(id, name), rows);
    }
}

/// Archiving a project keeps the engine valid.
pub proof fn lemma_remove_project_keeps_wf(s: EngineView, project_id: u64, now: u64)
    requires
        s.wf(),
    ensures
        s.remove_project(project_id, now).wf(),
{
    lemma_first_match_is_first(s.projects, project_has_id(project_id));
    match project_index(s.projects, project_id) {
        Some(pos) => {
            let after = s.remove_project(project_id, now);
            let ps = after.projects;
            let (np, nt) = (s.next_project_id, s.next_task_id);
            lemma_sessions_dropped_keeps_store(s.store, s.sessions, project_id, np, nt);
            lemma_sessions_dropped_keeps_rows(s.store, s.sessions, project_id);
            let s0 = sessions_dropped(s.store, s.sessions, project_id);
            let w1 = StoreWrite::SetProjectTasksArchived { project_id, archived_at: Some(now) };
            let w2 = StoreWrite::UpdateProject(project_id, ProjectChange::Archived(Some(now)));
            let w3 = StoreWrite::SaveCurrentProjectIndex { index: after.current_project_index };
            lemma_apply_keeps_store(s0, w1, np, nt);
            lemma_apply_keeps_store(s0.apply(w1), w2, np, nt);
            lemma_apply_keeps_store(s0.apply(w1).apply(w2), w3, np, nt);
            lemma_remove_project_keeps(s.projects, pos, np, nt);
            let f = |i: int|
                if i < pos {
                    i
                } else {
                    i + 1
                };
            lemma_reindexed_sound(s.projects, ps, s.store.tasks, f);
            lemma_mirror_reindexed(s.projects, ps, s.store.tasks, f);
            assert forall|i: int| 0 <= i < ps.len() implies (#[trigger] ps[i]).id != project_id by {
                if i < pos {
                    assert(s.projects[i].id != s.projects[pos].id);
                } else {
                    assert(s.projects[pos].id != s.projects[i + 1].id);
                }
            }
            lemma_apply_keeps_mirror(ps, s0, w1);
            lemma_apply_keeps_agree(ps, s0, w1);
            lemma_apply_keeps_mirror(ps, s0.apply(w1), w2);
            lemma_apply_keeps_agree(ps, s0.apply(w1), w2);
            lemma_apply_keeps_mirror(ps, s0.apply(w1).apply(w2), w3);
            lemma_apply_keeps_agree(ps, s0.apply(w1).apply(w2), w3);
            assert forall|i: int| 0 <= i < ps.len() implies exists|m: int|
                0 <= m < s.projects.len() && (#[trigger] s.projects[m]).id == (#[trigger] ps[i]).id
                    && s.projects[m].name == ps[i].name by {
                assert(s.projects[f(i)].id == ps[i].id);
            }
            lemma_names_kept(s.projects, ps, s.store.projects);
            lemma_apply_keeps_names(ps, s0, w1);
            lemma_apply_keeps_names(ps, s0.apply(w1), w2);
            lemma_apply_keeps_names(ps, s0.apply(w1).apply(w2), w3);
            lemma_project_filter_keeps_distinct(s.sessions, project_id);
        },
        None => {},
    }
}

/// Renaming a project keeps the engine valid.
pub proof fn lemma_rename_project_keeps_wf(s: EngineView, project_id: u64, new_name: String)
    requires
        s.wf(),
    ensures
        s.rename_project(project_id, new_name).wf(),
{
    lemma_first_match_is_first(s.projects, project_has_id(project_id));
    match project_index(s.projects, project_id) {
        Some(pi) => {
            let after = s.rename_project(project_id, new_name);
            let (np, nt) = (s.next_project_id, s.next_task_id);
            let w = StoreWrite::UpdateProject(project_id, ProjectChange::Name(new_name));
            lemma_apply_keeps_store(s.store, w, np, nt);
            let p = ProjectView { name: new_name, ..s.projects[pi] };
            assert(s.projects[pi].index_valid());
            assert forall|j: int| 0 <= j < p.tasks.len() implies (#[trigger] p.tasks[j]).id < nt by {
                assert(s.projects[pi].tasks[j].id < nt);
            }
            lemma_update_project_keeps(s.projects, pi, p, np, nt);
            lemma_apply_keeps_agree(s.projects, s.store, w);
            lemma_same_shape_sound(s.projects, after.projects, after.store.tasks);
            lemma_apply_keeps_mirror(s.projects, s.store, w);
            lemma_mirror_same_tasks(s.projects, pi, p, after.store.tasks);
            lemma_names_project_renamed(s.projects, s.store.projects, pi, new_name);
        },
        None => {},
    }
}

/// Rotating the projects keeps the engine valid.
pub proof fn lemma_rotate_project_keeps_wf(s: EngineView)
    requires
        s.wf(),
    ensures
        s.rotate_project().wf(),
{
    if s.projects.len() > 0 {
        let after = s.rotate_project();
        lemma_circular(
            s.current_project_index as int,
            1,
            s.projects.len() as int,
        );
        lemma_apply_keeps_store(
            s.store,
            StoreWrite::SaveCurrentProjectIndex { index: after.current_project_index },
            s.next_project_id,
            s.next_task_id,
        );
    }
    if s.projects.len() > 0 {
        let w = StoreWrite::SaveCurrentProjectIndex {
            index: s.rotate_project().current_project_index,
        };
        lemma_apply_keeps_agree(s.projects, s.store, w);
        lemma_apply_keeps_mirror(s.projects, s.store, w);
        lemma_apply_keeps_names(s.projects, s.store, w);
    }
}

/// Selecting a project keeps the engine valid.
pub proof fn lemma_set_current_project_keeps_wf(s: EngineView, index: usize)
    requires
        s.wf(),
    ensures
        s.set_current_project(index).wf(),
{
    if index < s.projects.len() {
        let after = s.set_current_project(index);
        let w = StoreWrite::SaveCurrentProjectIndex { index: 0 };
        lemma_apply_keeps_store(s.store, w, s.next_project_id, s.next_task_id);
        lemma_apply_keeps_agree(s.projects, s.store, w);
        lemma_apply_keeps_mirror(s.projects, s.store, w);
        if index > 0 {
            lemma_promote_keeps(s.projects, index as int, s.next_project_id, s.next_task_id);
            let f = |i: int|
                if i == 0 {
                    index as int
                } else if i <= index {
                    i - 1
                } else {
                    i
                };
            lemma_reindexed_sound(s.projects, after.projects, after.store.tasks, f);
            lemma_mirror_reindexed(s.projects, after.projects, after.store.tasks, f);
            assert forall|i: int| 0 <= i < after.projects.len() implies exists|m: int|
                0 <= m < s.projects.len() && (#[trigger] s.projects[m]).id == (
                #[trigger] after.projects[i]).id && s.projects[m].name
                    == after.projects[i].name by {
                assert(s.projects[f(i)].id == after.projects[i].id);
            }
            lemma_names_kept(s.projects, after.projects, s.store.projects);
        }
        lemma_apply_keeps_names(after.projects, s.store, w);
    }
}

/// Rotating the tasks keeps the engine valid.
pub proof fn lemma_rotate_task_keeps_wf(s: EngineView)
    requires
        s.wf(),
    ensures
        s.rotate_task().wf(),
{
    match s.rotation_target() {
        Some(t) => {
            let after = s.rotate_task();
            let c = s.current_project_index as int;
            let old_p = s.projects[c];
            lemma_target_is_a_position(old_p.tasks, old_p.current_task_index as int, 1);
            let p = ProjectView { current_task_index: t as usize, ..old_p };
            let (np, nt) = (s.next_project_id, s.next_task_id);
            let w = StoreWrite::UpdateProject(old_p.id, ProjectChange::CurrentTaskIndex(t as usize));
            lemma_apply_keeps_store(s.store, w, np, nt);
            assert forall|j: int| 0 <= j < p.tasks.len() implies (#[trigger] p.tasks[j]).id < nt by {
                assert(old_p.tasks[j].id < nt);
            }
            lemma_update_project_keeps(s.projects, c, p, np, nt);
            lemma_apply_keeps_agree(s.projects, s.store, w);
            lemma_same_shape_sound(s.projects, after.projects, after.store.tasks);
            lemma_apply_keeps_mirror(s.projects, s.store, w);
            lemma_mirror_same_tasks(s.projects, c, p, after.store.tasks);
            lemma_apply_keeps_names(s.projects, s.store, w);
            lemma_names_in_place(s.projects, after.projects, after.store.projects);
        },
        None => {},
    }
}

/// A task that joins a project under the next task id, with its row, keeps
/// the engine valid.
pub proof fn lemma_task_added_keeps_wf(s: EngineView, pi: int, t: Task, time_seconds: u64)
    requires
        s.wf(),
        0 <= pi < s.projects.len(),
        s.next_task_id < u64::MAX,
        t == (Task {
            id: s.next_task_id,
            project_id: s.projects[pi].id,
            name: t.name,
            time_seconds,
            done_at: None,
            archived_at: None,
        }),
    ensures
        (EngineView {
            projects: s.projects.update(
                pi,
                ProjectView { tasks: s.projects[pi].tasks.push(t), ..s.projects[pi] },
            ),
            store: s.store.apply(
                StoreWrite::InsertTask {
                    id: t.id,
                    project_id: s.projects[pi].id,
                    name: t.name,
                    time_seconds,
                },
            ),
            next_task_id: (s.next_task_id + 1) as u64,
            ..s
        }).wf(),
{
    let id = s.next_task_id;
    let nt = (id + 1) as u64;
    let np = s.next_project_id;
    let w = StoreWrite::InsertTask { id, project_id: s.projects[pi].id, name: t.name, time_seconds };
    lemma_ids_below_raise(s, np, nt);
    lemma_apply_keeps_store(s.store, w, np, nt);
    let old_p = s.projects[pi];
    let p = ProjectView { tasks: old_p.tasks.push(t), ..old_p };
    assert(old_p.index_valid());
    assert forall|j: int| 0 <= j < p.tasks.len() implies (#[trigger] p.tasks[j]).id < nt by {
        if j < old_p.tasks.len() {
            assert(old_p.tasks[j].id < id);
        }
    }
    lemma_update_project_keeps(s.projects, pi, p, np, nt);
    assert forall|i: int, j: int|
        0 <= i < s.projects.len() && 0 <= j < s.projects[i].tasks.len() implies (
    #[trigger] s.projects[i].tasks[j]).id != id by {
        assert(s.projects[i].tasks[j].id < id);
    }
    lemma_apply_keeps_agree(s.projects, s.store, w);
    let rows = s.store.apply(w).tasks;
    assert forall|k: int| 0 <= k < rows.len() && (#[trigger] rows[k]).task.id == id implies rows[k].task.project_id
        == s.projects[pi].id by {
        let old = s.store.tasks;
        if rows != old {
            let pos = old.filter(task_id_below(id)).len() as int;
            old.lemma_filter_len(task_id_below(id));
            if k < pos {
                assert(rows[k] == old[k]);
                assert(old[k].task.id < id);
            } else if k > pos {
                assert(rows[k] == old[k - 1]);
                assert(old[k - 1].task.id < id);
            }
        } else {
            assert(old[k].task.id < id);
        }
    }
    lemma_task_pushed_sound(s.projects, pi, t, rows);
    lemma_apply_keeps_mirror(s.projects, s.store, w);
    assert forall|k: int| 0 <= k < rows.len() && (#[trigger] rows[k]).task.id == id implies rows[k].task
        == t by {
        let old = s.store.tasks;
        if rows != old {
            let pos = old.filter(task_id_below(id)).len() as int;
            old.lemma_filter_len(task_id_below(id));
            if k < pos {
                assert(rows[k] == old[k]);
                assert(old[k].task.id < id);
            } else if k > pos {
                assert(rows[k] == old[k - 1]);
                assert(old[k - 1].task.id < id);
            }
        } else {
            assert(old[k].task.id < id);
        }
    }
    lemma_mirror_task_pushed(s.projects, pi, t, rows);
    lemma_apply_keeps_names(s.projects, s.store, w);
    lemma_names_in_place(s.projects, s.projects.update(pi, p), s.store.apply(w).projects);
}

/// Adding a task keeps the engine valid.
pub proof fn lemma_add_task_keeps_wf(s: EngineView, project_id: u64, name: String)
    requires
        s.wf(),
    ensures
        s.add_task(project_id, name).wf(),
{
    lemma_first_match_is_first(s.projects, project_has_id(project_id));
    match project_index(s.projects, project_id) {
        Some(pi) => {
            if s.next_task_id < u64::MAX {
                lemma_task_added_keeps_wf(s, pi, fresh_task(s.next_task_id, project_id, name), 0);
            }
        },
        None => {},
    }
}

/// Archiving a task keeps the engine valid.
pub proof fn lemma_remove_task_keeps_wf(s: EngineView, project_id: u64, task_id: u64, now: u64)
    requires
        s.wf(),
    ensures
        s.remove_task(project_id, task_id, now).wf(),
{
    let after = s.remove_task(project_id, task_id, now);
    if after != s {
        lemma_first_match_is_first(s.projects, project_has_id(project_id));
        let pi = project_index(s.projects, project_id).unwrap();
        let (np, nt) = (s.next_project_id, s.next_task_id);
        let running = session_index(s.sessions, task_id) is Some;
        let w0 = StoreWrite::RemoveSession { task_id };
        let store = if running {
            s.store.apply(w0)
        } else {
            s.store
        };
        lemma_apply_keeps_store(s.store, w0, np, nt);
        lemma_filter_keeps_distinct(s.sessions, task_id);
        let old_p = s.projects[pi];
        lemma_first_match_is_first(old_p.tasks, task_has_id(task_id));
        let ti = task_index(old_p.tasks, task_id).unwrap();
        let tasks = old_p.tasks.remove(ti);
        let current = clamped(old_p.current_task_index, tasks.len());
        let p = ProjectView { tasks, current_task_index: current, ..old_p };
        let ps = after.projects;
        let w1 = StoreWrite::UpdateTask(task_id, TaskChange::Archived(Some(now)));
        let w2 = StoreWrite::UpdateProject(project_id, ProjectChange::CurrentTaskIndex(current));
        lemma_apply_keeps_store(store, w1, np, nt);
        lemma_apply_keeps_store(store.apply(w1), w2, np, nt);
        assert(old_p.index_valid());
        assert forall|j: int| 0 <= j < p.tasks.len() implies (#[trigger] p.tasks[j]).id < nt by {
            if j < ti {
                assert(old_p.tasks[j].id < nt);
            } else {
                assert(old_p.tasks[j + 1].id < nt);
            }
        }
        lemma_update_project_keeps(s.projects, pi, p, np, nt);
        lemma_task_removed_sound(s.projects, pi, ti, current, s.store.tasks);
        lemma_mirror_task_removed(s.projects, pi, ti, current, s.store.tasks);
        lemma_apply_keeps_agree(ps, s.store, w0);
        lemma_apply_keeps_mirror(ps, s.store, w0);
        lemma_apply_keeps_agree(ps, store, w1);
        lemma_apply_keeps_mirror(ps, store, w1);
        lemma_apply_keeps_agree(ps, store.apply(w1), w2);
        lemma_apply_keeps_mirror(ps, store.apply(w1), w2);
        lemma_apply_keeps_names(s.projects, s.store, w0);
        lemma_apply_keeps_names(s.projects, store, w1);
        lemma_apply_keeps_names(s.projects, store.apply(w1), w2);
        lemma_names_in_place(s.projects, ps, after.store.projects);
    }
}

/// Renaming a task keeps the engine valid.
pub proof fn lemma_rename_task_keeps_wf(s: EngineView, project_id: u64, task_id: u64, new_name: String)
    requires
        s.wf(),
    ensures
        s.rename_task(project_id, task_id, new_name).wf(),
{
    let after = s.rename_task(project_id, task_id, new_name);
    if after != s {
        lemma_first_match_is_first(s.projects, project_has_id(project_id));
        let pi = project_index(s.projects, project_id).unwrap();
        lemma_first_match_is_first(s.projects[pi].tasks, task_has_id(task_id));
        let ti = task_index(s.projects[pi].tasks, task_id).unwrap();
        let (np, nt) = (s.next_project_id, s.next_task_id);
        let change = TaskChange::Name(new_name);
        let w = StoreWrite::UpdateTask(task_id, change);
        lemma_apply_keeps_store(s.store, w, np, nt);
        lemma_replace_task_keeps(s.projects, pi, ti, change.on(s.projects[pi].tasks[ti]), np, nt);
        lemma_apply_keeps_agree(s.projects, s.store, w);
        lemma_same_shape_sound(s.projects, after.projects, after.store.tasks);
        lemma_mirror_task_changed(s.projects, s.store.tasks, pi, ti, change);
        lemma_apply_keeps_names(s.projects, s.store, w);
        lemma_names_in_place(s.projects, after.projects, after.store.projects);
    }
}

/// Marking a task as finished, or as unfinished, keeps the engine valid.
pub proof fn lemma_toggle_task_done_keeps_wf(
    s: EngineView,
    project_id: u64,
    task_id: u64,
    done: bool,
    now: u64,
)
    requires
        s.wf(),
    ensures
        s.toggle_task_done(project_id, task_id, done, now).wf(),
{
    let after = s.toggle_task_done(project_id, task_id, done, now);
    if after != s {
        lemma_first_match_is_first(s.projects, project_has_id(project_id));
        let pi = project_index(s.projects, project_id).unwrap();
        lemma_first_match_is_first(s.projects[pi].tasks, task_has_id(task_id));
        let ti = task_index(s.projects[pi].tasks, task_id).unwrap();
        let (np, nt) = (s.next_project_id, s.next_task_id);
        let change = TaskChange::Done(done_stamp(done, now));
        let w = StoreWrite::UpdateTask(task_id, change);
        lemma_apply_keeps_store(s.store, w, np, nt);
        lemma_replace_task_keeps(s.projects, pi, ti, change.on(s.projects[pi].tasks[ti]), np, nt);
        lemma_apply_keeps_agree(s.projects, s.store, w);
        lemma_same_shape_sound(s.projects, after.projects, after.store.tasks);
        lemma_mirror_task_changed(s.projects, s.store.tasks, pi, ti, change);
        lemma_apply_keeps_names(s.projects, s.store, w);
        lemma_names_in_place(s.projects, after.projects, after.store.projects);
    }
}

/// Restoring a project keeps the engine valid.
pub proof fn lemma_restore_project_keeps_wf(s: EngineView, project_id: u64, now: u64)
    requires
        s.wf(),
    ensures
        s.restore_project(project_id, now).wf(),
{
    reveal(task_ids_distinct);
    reveal(owners_agree);
    let after = s.restore_project(project_id, now);
    if after != s {
        let (np, nt) = (s.next_project_id, s.next_task_id);
        let w1 = StoreWrite::UpdateProject(project_id, ProjectChange::Archived(None));
        let w2 = StoreWrite::SetProjectTasksArchived { project_id, archived_at: None };
        lemma_apply_keeps_store(s.store, w1, np, nt);
        lemma_apply_keeps_store(s.store.apply(w1), w2, np, nt);
        lemma_apply_keeps_agree(s.projects, s.store, w1);
        lemma_apply_keeps_agree(s.projects, s.store.apply(w1), w2);
        let store = after.store;
        let rows = store.tasks;
        lemma_first_match_is_first(s.store.projects, project_row_has_id(project_id));
        lemma_first_match_is_first(s.projects, project_has_id(project_id));
        let found = s.store.project_row(project_id).unwrap();
        let k0 = first_match(s.store.projects, project_row_has_id(project_id)).unwrap();
        assert(s.store.projects[k0].id < np);
        let row = ProjectRow { archived_at: None, ..found };
        let p = loaded_project(rows, row, now);
        let pred = task_row_visible(project_id, now);
        let f = rows.filter(pred);
        lemma_loaded_project_below(rows, row, now, nt);
        lemma_push_project_keeps(s.projects, p, np, nt);
        lemma_filter_members(rows, pred);
        lemma_filter_keeps_task_rows(rows, pred);
        assert forall|i: int| 0 <= i < s.projects.len() implies (#[trigger] s.projects[i]).id
            != p.id by {
            assert(!project_has_id(project_id)(s.projects[i]));
        }
        assert forall|j: int, l: int| 0 <= j < l < p.tasks.len() implies (#[trigger] p.tasks[j]).id
            != (#[trigger] p.tasks[l]).id by {
            assert(f[j].task.id < f[l].task.id);
        }
        assert forall|i: int, j: int, l: int|
            0 <= i < s.projects.len() && 0 <= j < s.projects[i].tasks.len() && 0 <= l
                < p.tasks.len() implies (#[trigger] s.projects[i].tasks[j]).id != (
        #[trigger] p.tasks[l]).id by {
            assert(f.contains(f[l]));
            assert(rows.contains(f[l]));
            let m = choose|m: int| 0 <= m < rows.len() && rows[m] == f[l];
            assert(pred(rows[m]));
            if s.projects[i].tasks[j].id == p.tasks[l].id {
                assert(s.projects[i].tasks[j].id == rows[m].task.id);
                assert(!project_has_id(project_id)(s.projects[i]));
            }
        }
        assert forall|l: int, k: int|
            0 <= l < p.tasks.len() && 0 <= k < rows.len() && (#[trigger] p.tasks[l]).id == (
            #[trigger] rows[k]).task.id implies rows[k].task.project_id == p.id by {
            assert(f.contains(f[l]));
            assert(rows.contains(f[l]));
            let m = choose|m: int| 0 <= m < rows.len() && rows[m] == f[l];
            assert(pred(rows[m]));
            if k < m {
                assert(rows[k].task.id < rows[m].task.id);
            } else if m < k {
                assert(rows[m].task.id < rows[k].task.id);
            }
        }
        lemma_project_pushed_sound(s.projects, p, rows);
        lemma_apply_keeps_mirror(s.projects, s.store, w1);
        lemma_apply_keeps_mirror(s.projects, s.store.apply(w1), w2);
        assert forall|l: int, k: int|
            0 <= l < p.tasks.len() && 0 <= k < rows.len() && (#[trigger] p.tasks[l]).id == (
            #[trigger] rows[k]).task.id implies rows[k].task == p.tasks[l] by {
            assert(f.contains(f[l]));
            assert(rows.contains(f[l]));
            let m = choose|m: int| 0 <= m < rows.len() && rows[m] == f[l];
            if k < m {
                assert(rows[k].task.id < rows[m].task.id);
            } else if m < k {
                assert(rows[m].task.id < rows[k].task.id);
            }
        }
        lemma_mirror_project_pushed(s.projects, p, rows);
        lemma_apply_keeps_names(s.projects, s.store, w1);
        lemma_apply_keeps_names(s.projects, s.store.apply(w1), w2);
        let prows = store.projects;
        assert forall|k: int| 0 <= k < prows.len() && (#[trigger] prows[k]).id == p.id implies prows[k].name
            == p.name && prows[k].archived_at is None by {
            assert(prows[k].id == s.store.projects[k].id);
            if k < k0 {
                assert(s.store.projects[k].id < s.store.projects[k0].id);
            } else if k0 < k {
                assert(s.store.projects[k0].id < s.store.projects[k].id);
            }
        }
        lemma_names_project_pushed(s.projects, p, prows);
    }
}

/// Restoring a task keeps the engine valid.
pub proof fn lemma_restore_task_keeps_wf(s: EngineView, project_id: u64, task_id: u64)
    requires
        s.wf(),
    ensures
        s.restore_task(project_id, task_id).wf(),
{
    reveal(task_ids_distinct);
    reveal(owners_agree);
    if s.can_restore_task(project_id, task_id) {
        let after = s.restore_task(project_id, task_id);
        let (np, nt) = (s.next_project_id, s.next_task_id);
        let w = StoreWrite::UpdateTask(task_id, TaskChange::Archived(None));
        lemma_apply_keeps_store(s.store, w, np, nt);
        lemma_apply_keeps_agree(s.projects, s.store, w);
        lemma_first_match_is_first(s.projects, project_has_id(project_id));
        lemma_first_match_is_first(s.store.tasks, task_row_has_id(task_id));
        let pi = project_index(s.projects, project_id).unwrap();
        let k0 = first_match(s.store.tasks, task_row_has_id(task_id)).unwrap();
        let row = s.store.tasks[k0];
        assert(row.task.id < nt);
        let old_p = s.projects[pi];
        lemma_first_match_is_first(old_p.tasks, task_has_id(task_id));
        let t = Task { archived_at: None, ..row.task };
        let p = ProjectView { tasks: old_p.tasks.push(t), ..old_p };
        assert(old_p.index_valid());
        assert forall|j: int| 0 <= j < p.tasks.len() implies (#[trigger] p.tasks[j]).id < nt by {
            if j < old_p.tasks.len() {
                assert(old_p.tasks[j].id < nt);
            }
        }
        lemma_update_project_keeps(s.projects, pi, p, np, nt);
        let rows = after.store.tasks;
        assert forall|i: int, j: int|
            0 <= i < s.projects.len() && 0 <= j < s.projects[i].tasks.len() implies (
        #[trigger] s.projects[i].tasks[j]).id != t.id by {
            if s.projects[i].tasks[j].id == t.id {
                assert(s.projects[i].tasks[j].id == s.store.tasks[k0].task.id);
                assert(s.projects[i].id == project_id);
                if i < pi {
                    assert(s.projects[i].id != s.projects[pi].id);
                } else if pi < i {
                    assert(s.projects[pi].id != s.projects[i].id);
                }
                assert(!task_has_id(task_id)(old_p.tasks[j]));
            }
        }
        assert forall|k: int|
            0 <= k < rows.len() && (#[trigger] rows[k]).task.id == t.id implies rows[k].task.project_id
            == s.projects[pi].id by {
            assert(rows[k].task.id == s.store.tasks[k].task.id);
            if k < k0 {
                assert(s.store.tasks[k].task.id < s.store.tasks[k0].task.id);
            } else if k0 < k {
                assert(s.store.tasks[k0].task.id < s.store.tasks[k].task.id);
            }
        }
        lemma_task_pushed_sound(s.projects, pi, t, rows);
        lemma_apply_keeps_mirror(s.projects, s.store, w);
        assert forall|k: int| 0 <= k < rows.len() && (#[trigger] rows[k]).task.id == t.id implies rows[k].task
            == t by {
            assert(rows[k].task.id == s.store.tasks[k].task.id);
            if k < k0 {
                assert(s.store.tasks[k].task.id < s.store.tasks[k0].task.id);
            } else if k0 < k {
                assert(s.store.tasks[k0].task.id < s.store.tasks[k].task.id);
            }
        }
        lemma_mirror_task_pushed(s.projects, pi, t, rows);
        lemma_apply_keeps_names(s.projects, s.store, w);
        lemma_names_in_place(s.projects, after.projects, after.store.projects);
    }
}

/// A new time entry keeps the engine valid.
pub proof fn lemma_store_write_keeps_wf(s: EngineView, w: StoreWrite)
    requires
        s.wf(),
        w is InsertTimeEntry,
    ensures
        (EngineView { store: s.store.apply(w), ..s }).wf(),
{
    lemma_apply_keeps_store(s.store, w, s.next_project_id, s.next_task_id);
    lemma_apply_keeps_agree(s.projects, s.store, w);
    lemma_apply_keeps_mirror(s.projects, s.store, w);
    lemma_apply_keeps_names(s.projects, s.store, w);
}

/// Deleting rows for good keeps the engine valid.
pub proof fn lemma_delete_keeps_wf(s: EngineView, id: u64)
    requires
        s.wf(),
    ensures
        s.delete_task_permanent(id).wf(),
        s.delete_project_permanent(id).wf(),
{
    let (np, nt) = (s.next_project_id, s.next_task_id);
    lemma_apply_keeps_store(s.store, StoreWrite::DeleteTask { id }, np, nt);
    lemma_apply_keeps_store(s.store, StoreWrite::DeleteProject { id }, np, nt);
    lemma_apply_keeps_agree(s.projects, s.store, StoreWrite::DeleteTask { id });
    lemma_apply_keeps_agree(s.projects, s.store, StoreWrite::DeleteProject { id });
    lemma_apply_keeps_mirror(s.projects, s.store, StoreWrite::DeleteTask { id });
    lemma_apply_keeps_mirror(s.projects, s.store, StoreWrite::DeleteProject { id });
    lemma_apply_keeps_names(s.projects, s.store, StoreWrite::DeleteTask { id });
    lemma_apply_keeps_names(s.projects, s.store, StoreWrite::DeleteProject { id });
}

/// Wiping everything leaves a valid engine.
pub proof fn lemma_reset_keeps_wf(s: EngineView)
    requires
        s.wf(),
    ensures
        s.reset_database().wf(),
{
    reveal(task_ids_distinct);
    reveal(owners_agree);
    reveal(rows_mirror);
    reveal(names_mirror);
    lemma_apply_keeps_order(s.store, StoreWrite::Reset);
}

/// The ids of the projects that a store gives to the rotation are sound.
pub proof fn lemma_visible_projects_sound(s: StoreView, now: u64)
    requires
        s.wf(),
    ensures
        ids_sound(s.visible_projects(now), s.tasks),
        rows_mirror(s.visible_projects(now), s.tasks),
        names_mirror(s.visible_projects(now), s.projects),
{
    reveal(task_ids_distinct);
    reveal(owners_agree);
    reveal(rows_mirror);
    reveal(names_mirror);
    lemma_filter_members(s.projects, project_row_active());
    assert forall|i: int, k: int|
        0 <= i < s.visible_projects(now).len() && 0 <= k < s.projects.len() && (
        #[trigger] s.visible_projects(now)[i]).id == (#[trigger] s.projects[k]).id implies s.projects[k].name
        == s.visible_projects(now)[i].name && s.projects[k].archived_at is None by {
        let active = s.projects.filter(project_row_active());
        assert(active.contains(active[i]));
        assert(s.projects.contains(active[i]));
        let m = choose|m: int| 0 <= m < s.projects.len() && s.projects[m] == active[i];
        assert(project_row_active()(s.projects[m]));
        if m < k {
            assert(s.projects[m].id < s.projects[k].id);
        } else if k < m {
            assert(s.projects[k].id < s.projects[m].id);
        }
    }
    let rows = s.tasks;
    let active = s.projects.filter(project_row_active());
    let ps = s.visible_projects(now);
    lemma_filter_keeps_project_rows(s.projects, project_row_active());
    assert forall|i: int, j: int| 0 <= i < j < ps.len() implies (#[trigger] ps[i]).id != (
    #[trigger] ps[j]).id by {
        assert(active[i].id < active[j].id);
    }
    assert forall|i: int, j: int| 0 <= i < ps.len() && 0 <= j < ps[i].tasks.len() implies exists|
        m: int,
    |
        0 <= m < rows.len() && (#[trigger] rows[m]).task == (#[trigger] ps[i].tasks[j])
            && rows[m].task.project_id == ps[i].id by {
        let pred = task_row_visible(active[i].id, now);
        let f = rows.filter(pred);
        lemma_filter_members(rows, pred);
        assert(f.contains(f[j]));
        assert(rows.contains(f[j]));
        let m = choose|m: int| 0 <= m < rows.len() && rows[m] == f[j];
        assert(pred(rows[m]));
        assert(rows[m].task == ps[i].tasks[j]);
    }
    assert forall|i: int, j: int, k: int, l: int|
        0 <= i < ps.len() && 0 <= j < ps[i].tasks.len() && 0 <= k < ps.len() && 0 <= l
            < ps[k].tasks.len() && (i != k || j != l) implies (#[trigger] ps[i].tasks[j]).id != (
    #[trigger] ps[k].tasks[l]).id by {
        if i == k {
            let pred = task_row_visible(active[i].id, now);
            lemma_filter_keeps_task_rows(rows, pred);
            let f = rows.filter(pred);
            if j < l {
                assert(f[j].task.id < f[l].task.id);
            } else {
                assert(f[l].task.id < f[j].task.id);
            }
        } else {
            let m = choose|m: int|
                0 <= m < rows.len() && (#[trigger] rows[m]).task == ps[i].tasks[j]
                    && rows[m].task.project_id == ps[i].id;
            let n = choose|n: int|
                0 <= n < rows.len() && (#[trigger] rows[n]).task == ps[k].tasks[l]
                    && rows[n].task.project_id == ps[k].id;
            if i < k {
                assert(ps[i].id != ps[k].id);
            } else {
                assert(ps[k].id != ps[i].id);
            }
            if m < n {
                assert(rows[m].task.id < rows[n].task.id);
            } else if n < m {
                assert(rows[n].task.id < rows[m].task.id);
            }
        }
    }
    assert forall|i: int, j: int, k: int|
        0 <= i < ps.len() && 0 <= j < ps[i].tasks.len() && 0 <= k < rows.len() && (
        #[trigger] ps[i].tasks[j]).id == (#[trigger] rows[k]).task.id implies rows[k].task.project_id
        == ps[i].id by {
        let m = choose|m: int|
            0 <= m < rows.len() && (#[trigger] rows[m]).task == ps[i].tasks[j]
                && rows[m].task.project_id == ps[i].id;
        if m < k {
            assert(rows[m].task.id < rows[k].task.id);
        } else if k < m {
            assert(rows[k].task.id < rows[m].task.id);
        }
    }
    assert forall|i: int, j: int, k: int|
        0 <= i < ps.len() && 0 <= j < ps[i].tasks.len() && 0 <= k < rows.len() && (
        #[trigger] ps[i].tasks[j]).id == (#[trigger] rows[k]).task.id implies rows[k].task
        == ps[i].tasks[j] by {
        let m = choose|m: int|
            0 <= m < rows.len() && (#[trigger] rows[m]).task == ps[i].tasks[j]
                && rows[m].task.project_id == ps[i].id;
        if m < k {
            assert(rows[m].task.id < rows[k].task.id);
        } else if k < m {
            assert(rows[k].task.id < rows[m].task.id);
        }
    }
}

} // verus!

//! The loops that change and check the rows of one table.

use vstd::prelude::*;
use crate::model::{ActiveTracking, Task, TimeEntry};
use crate::seq_util::{lemma_filter_prefix, lemma_filter_take_step};
use crate::store::{
    entries_ordered, entries_with, entry_not_of_project, entry_not_of_task, has_project_row,
    has_task_row, id_after, last_entry_id, new_project_row, new_task_row, project_id_below,
    project_row_is_not, project_rows_migrated, project_rows_ordered, project_rows_updated,
    project_rows_with, session_not_of_task, task_id_below, task_row_is_not, task_row_not_of_project,
    task_rows_archived, task_rows_migrated, task_rows_ordered, task_rows_updated, task_rows_with,
    ProjectChange, ProjectRow, TaskChange, TaskRow,
};

verus! {

/// Decides whether project rows stand in increasing order of id.
pub fn check_project_rows(v: &Vec<ProjectRow>) -> (b: bool)
    ensures
        b == project_rows_ordered(v@),
{
    let mut i: usize = 0;
    while i < v.len()
        invariant
            i <= v.len(),
            project_rows_ordered(v@.take(i as int)),
        decreases v.len() - i,
    {
        if v[i].id == u64::MAX {
            return false;
        }
        if i > 0 && v[i - 1].id >= v[i].id {
            return false;
        }
        proof {
            let t = v@.take(i + 1);
            assert forall|a: int, b: int| 0 <= a < b < t.len() implies t[a].id < t[b].id by {
                if b < i {
                    assert(v@.take(i as int)[a].id < v@.take(i as int)[b].id);
                } else if a < i - 1 {
                    assert(v@.take(i as int)[a].id < v@.take(i as int)[i - 1].id);
                }
            }
            assert forall|a: int| 0 <= a < t.len() implies t[a].id < u64::MAX by {
                if a < i {
                    assert(v@.take(i as int)[a].id < u64::MAX);
                }
            }
        }
        i += 1;
    }
    assert(v@.take(v.len() as int) =~= v@);
    true
}

/// Decides whether task rows stand in increasing order of id.
pub fn check_task_rows(v: &Vec<TaskRow>) -> (b: bool)
    ensures
        b == task_rows_ordered(v@),
{
    let mut i: usize = 0;
    while i < v.len()
        invariant
            i <= v.len(),
            task_rows_ordered(v@.take(i as int)),
        decreases v.len() - i,
    {
        if v[i].task.id == u64::MAX {
            return false;
        }
        if i > 0 && v[i - 1].task.id >= v[i].task.id {
            return false;
        }
        proof {
            let t = v@.take(i + 1);
            assert forall|a: int, b: int| 0 <= a < b < t.len() implies t[a].task.id
                < t[b].task.id by {
                if b < i {
                    assert(v@.take(i as int)[a].task.id < v@.take(i as int)[b].task.id);
                } else if a < i - 1 {
                    assert(v@.take(i as int)[a].task.id < v@.take(i as int)[i - 1].task.id);
                }
            }
            assert forall|a: int| 0 <= a < t.len() implies t[a].task.id < u64::MAX by {
                if a < i {
                    assert(v@.take(i as int)[a].task.id < u64::MAX);
                }
            }
        }
        i += 1;
    }
    assert(v@.take(v.len() as int) =~= v@);
    true
}

/// Decides whether time entries stand in increasing order of id.
pub fn check_entries(v: &Vec<TimeEntry>) -> (b: bool)
    ensures
        b == entries_ordered(v@),
{
    let mut i: usize = 0;
    while i < v.len()
        invariant
            i <= v.len(),
            entries_ordered(v@.take(i as int)),
        decreases v.len() - i,
    {
        if v[i].id == u64::MAX {
            return false;
        }
        if i > 0 && v[i - 1].id >= v[i].id {
            return false;
        }
        proof {
            let t = v@.take(i + 1);
            assert forall|a: int, b: int| 0 <= a < b < t.len() implies t[a].id < t[b].id by {
                if b < i {
                    assert(v@.take(i as int)[a].id < v@.take(i as int)[b].id);
                } else if a < i - 1 {
                    assert(v@.take(i as int)[a].id < v@.take(i as int)[i - 1].id);
                }
            }
            assert forall|a: int| 0 <= a < t.len() implies t[a].id < u64::MAX by {
                if a < i {
                    assert(v@.take(i as int)[a].id < u64::MAX);
                }
            }
        }
        i += 1;
    }
    assert(v@.take(v.len() as int) =~= v@);
    true
}

/// Offers a project row to the table.
pub fn insert_project_row(rows: &mut Vec<ProjectRow>, id: u64, name: String)
    requires
        project_rows_ordered(old(rows)@),
    ensures
        final(rows)@ == project_rows_with(old(rows)@, id, name),
        project_rows_ordered(final(rows)@),
{
    if id == u64::MAX {
        return ;
    }
    let mut pos: usize = 0;
    while pos < rows.len() && rows[pos].id < id
        invariant
            pos <= rows.len(),
            rows@ == old(rows)@,
            forall|k: int| 0 <= k < pos ==> (#[trigger] rows@[k]).id < id,
        decreases rows.len() - pos,
    {
        pos += 1;
    }
    let ghost before = rows@;
    if pos < rows.len() && rows[pos].id == id {
        assert(has_project_row(before, id));
        return ;
    }
    proof {
        assert forall|k: int| pos <= k < before.len() implies (#[trigger] before[k]).id > id by {
            if k > pos {
                assert(before[pos as int].id < before[k].id);
            }
        }
        assert(!has_project_row(before, id));
        assert forall|k: int| 0 <= k < pos implies #[trigger] project_id_below(id)(before[k]) by {
            assert(before[k].id < id);
        }
        assert forall|k: int| pos <= k < before.len() implies !#[trigger] project_id_below(id)(
            before[k],
        ) by {
            assert(before[k].id > id);
        }
        lemma_filter_prefix(before, project_id_below(id), pos as int);
    }
    let row = ProjectRow { id, name, current_task_index: 0, archived_at: None, legacy_archived: false };
    rows.insert(pos, row);
    proof {
        let after = rows@;
        assert(after == before.insert(pos as int, new_project_row(id, name)));
        assert forall|a: int, b: int| 0 <= a < b < after.len() implies after[a].id
            < after[b].id by {
            let a0 = if a < pos { a } else { a - 1 };
            let b0 = if b < pos { b } else { b - 1 };
            if a != pos && b != pos {
                assert(before[a0].id < before[b0].id);
            } else if a == pos {
                assert(before[b0].id > id);
            } else {
                assert(before[a0].id < id);
            }
        }
        assert forall|a: int| 0 <= a < after.len() implies after[a].id < u64::MAX by {
            let a0 = if a < pos { a } else { a - 1 };
            if a != pos {
                assert(before[a0].id < u64::MAX);
            }
        }
    }
}

/// Offers a task row to the table.
pub fn insert_task_row(
    rows: &mut Vec<TaskRow>,
    id: u64,
    project_id: u64,
    name: String,
    time_seconds: u64,
)
    requires
        task_rows_ordered(old(rows)@),
    ensures
        final(rows)@ == task_rows_with(old(rows)@, id, project_id, name, time_seconds),
        task_rows_ordered(final(rows)@),
{
    if id == u64::MAX {
        return ;
    }
    let mut pos: usize = 0;
    while pos < rows.len() && rows[pos].task.id < id
        invariant
            pos <= rows.len(),
            rows@ == old(rows)@,
            forall|k: int| 0 <= k < pos ==> (#[trigger] rows@[k]).task.id < id,
        decreases rows.len() - pos,
    {
        pos += 1;
    }
    let ghost before = rows@;
    if pos < rows.len() && rows[pos].task.id == id {
        assert(has_task_row(before, id));
        return ;
    }
    proof {
        assert forall|k: int| pos <= k < before.len() implies (#[trigger] before[k]).task.id
            > id by {
            if k > pos {
                assert(before[pos as int].task.id < before[k].task.id);
            }
        }
        assert(!has_task_row(before, id));
        assert forall|k: int| 0 <= k < pos implies #[trigger] task_id_below(id)(before[k]) by {
            assert(before[k].task.id < id);
        }
        assert forall|k: int| pos <= k < before.len() implies !#[trigger] task_id_below(id)(
            before[k],
        ) by {
            assert(before[k].task.id > id);
        }
        lemma_filter_prefix(before, task_id_below(id), pos as int);
    }
    let row = TaskRow {
        task: Task { id, project_id, name, time_seconds, done_at: None, archived_at: None },
        legacy_done: false,
        legacy_archived: false,
    };
    rows.insert(pos, row);
    proof {
        let after = rows@;
        assert(after == before.insert(pos as int, new_task_row(id, project_id, name, time_seconds)));
        assert forall|a: int, b: int| 0 <= a < b < after.len() implies after[a].task.id
            < after[b].task.id by {
            let a0 = if a < pos { a } else { a - 1 };
            let b0 = if b < pos { b } else { b - 1 };
            if a != pos && b != pos {
                assert(before[a0].task.id < before[b0].task.id);
            } else if a == pos {
                assert(before[b0].task.id > id);
            } else {
                assert(before[a0].task.id < id);
            }
        }
        assert forall|a: int| 0 <= a < after.len() implies after[a].task.id < u64::MAX by {
            let a0 = if a < pos { a } else { a - 1 };
            if a != pos {
                assert(before[a0].task.id < u64::MAX);
            }
        }
    }
}

/// Offers a time entry to the ledger.
pub fn insert_entry(
    entries: &mut Vec<TimeEntry>,
    project_id: u64,
    task_id: u64,
    start_time: u64,
    end_time: u64,
    duration_seconds: u64,
)
    requires
        entries_ordered(old(entries)@),
    ensures
        final(entries)@ == entries_with(
            old(entries)@,
            project_id,
            task_id,
            start_time,
            end_time,
            duration_seconds,
        ),
        entries_ordered(final(entries)@),
{
    let n = entries.len();
    let id: u64 = if n == 0 {
        1
    } else {
        entries[n - 1].id + 1
    };
    assert(id == id_after(last_entry_id(entries@)));
    if id == u64::MAX {
        return ;
    }
    let ghost before = entries@;
    entries.push(TimeEntry { id, project_id, task_id, start_time, end_time, duration_seconds });
    proof {
        let after = entries@;
        assert forall|a: int, b: int| 0 <= a < b < after.len() implies after[a].id
            < after[b].id by {
            if b < n {
                assert(before[a].id < before[b].id);
            } else if a < n - 1 {
                assert(before[a].id < before[n - 1].id);
            }
        }
        assert forall|a: int| 0 <= a < after.len() implies after[a].id < u64::MAX by {
            if a < n {
                assert(before[a].id < u64::MAX);
            }
        }
    }
}

/// Changes one column of the project row `id`.
pub fn update_project_rows(rows: &mut Vec<ProjectRow>, id: u64, change: &ProjectChange)
    requires
        project_rows_ordered(old(rows)@),
    ensures
        final(rows)@ == project_rows_updated(old(rows)@, id, *change),
        project_rows_ordered(final(rows)@),
{
    let ghost before = rows@;
    let mut i: usize = 0;
    while i < rows.len()
        invariant
            i <= rows.len(),
            rows.len() == before.len(),
            forall|k: int|
                0 <= k < i ==> #[trigger] rows@[k] == project_rows_updated(before, id, *change)[k],
            forall|k: int| i <= k < rows.len() ==> #[trigger] rows@[k] == before[k],
        decreases rows.len() - i,
    {
        if rows[i].id == id {
            match change {
                ProjectChange::Name(n) => {
                    rows[i].name = n.clone();
                },
                ProjectChange::CurrentTaskIndex(t) => {
                    rows[i].current_task_index = *t;
                },
                ProjectChange::Archived(a) => {
                    rows[i].archived_at = *a;
                },
            }
        }
        i += 1;
    }
    assert(rows@ =~= project_rows_updated(before, id, *change));
    proof {
        let after = rows@;
        assert forall|a: int| 0 <= a < after.len() implies (#[trigger] after[a]).id
            == before[a].id by {}
        assert forall|a: int, b: int| 0 <= a < b < after.len() implies after[a].id
            < after[b].id by {
            assert(before[a].id < before[b].id);
        }
    }
}

/// Changes one column of the task row `id`.
pub fn update_task_rows(rows: &mut Vec<TaskRow>, id: u64, change: &TaskChange)
    requires
        task_rows_ordered(old(rows)@),
    ensures
        final(rows)@ == task_rows_updated(old(rows)@, id, *change),
        task_rows_ordered(final(rows)@),
{
    let ghost before = rows@;
    let mut i: usize = 0;
    while i < rows.len()
        invariant
            i <= rows.len(),
            rows.len() == before.len(),
            forall|k: int|
                0 <= k < i ==> #[trigger] rows@[k] == task_rows_updated(before, id, *change)[k],
            forall|k: int| i <= k < rows.len() ==> #[trigger] rows@[k] == before[k],
        decreases rows.len() - i,
    {
        if rows[i].task.id == id {
            match change {
                TaskChange::Name(n) => {
                    rows[i].task.name = n.clone();
                },
                TaskChange::Time(t) => {
                    rows[i].task.time_seconds = *t;
                },
                TaskChange::Done(d) => {
                    rows[i].task.done_at = *d;
                },
                TaskChange::Archived(a) => {
                    rows[i].task.archived_at = *a;
                },
            }
        }
        i += 1;
    }
    assert(rows@ =~= task_rows_updated(before, id, *change));
    proof {
        let after = rows@;
        assert forall|a: int| 0 <= a < after.len() implies (#[trigger] after[a]).task.id
            == before[a].task.id by {}
        assert forall|a: int, b: int| 0 <= a < b < after.len() implies after[a].task.id
            < after[b].task.id by {
            assert(before[a].task.id < before[b].task.id);
        }
    }
}

/// Sets the archive timestamp of every task row of one project.
pub fn archive_task_rows(rows: &mut Vec<TaskRow>, project_id: u64, at: Option<u64>)
    requires
        task_rows_ordered(old(rows)@),
    ensures
        final(rows)@ == task_rows_archived(old(rows)@, project_id, at),
        task_rows_ordered(final(rows)@),
{
    let ghost before = rows@;
    let mut i: usize = 0;
    while i < rows.len()
        invariant
            i <= rows.len(),
            rows.len() == before.len(),
            forall|k: int|
                0 <= k < i ==> #[trigger] rows@[k] == task_rows_archived(before, project_id, at)[k],
            forall|k: int| i <= k < rows.len() ==> #[trigger] rows@[k] == before[k],
        decreases rows.len() - i,
    {
        if rows[i].task.project_id == project_id {
            rows[i].task.archived_at = at;
        }
        i += 1;
    }
    assert(rows@ =~= task_rows_archived(before, project_id, at));
    proof {
        let after = rows@;
        assert forall|a: int| 0 <= a < after.len() implies (#[trigger] after[a]).task.id
            == before[a].task.id by {}
        assert forall|a: int, b: int| 0 <= a < b < after.len() implies after[a].task.id
            < after[b].task.id by {
            assert(before[a].task.id < before[b].task.id);
        }
    }
}

/// Turns the legacy flags of the project rows into timestamps.
pub fn migrate_project_rows(rows: &mut Vec<ProjectRow>, now: u64)
    requires
        project_rows_ordered(old(rows)@),
    ensures
        final(rows)@ == project_rows_migrated(old(rows)@, now),
        project_rows_ordered(final(rows)@),
{
    let ghost before = rows@;
    let mut i: usize = 0;
    while i < rows.len()
        invariant
            i <= rows.len(),
            rows.len() == before.len(),
            forall|k: int| 0 <= k < i ==> #[trigger] rows@[k] == before[k].migrated(now),
            forall|k: int| i <= k < rows.len() ==> #[trigger] rows@[k] == before[k],
        decreases rows.len() - i,
    {
        if rows[i].legacy_archived && rows[i].archived_at.is_none() {
            rows[i].archived_at = Some(now);
        }
        i += 1;
    }
    assert(rows@ =~= project_rows_migrated(before, now));
    proof {
        let after = rows@;
        assert forall|a: int| 0 <= a < after.len() implies (#[trigger] after[a]).id
            == before[a].id by {}
        assert forall|a: int, b: int| 0 <= a < b < after.len() implies after[a].id
            < after[b].id by {
            assert(before[a].id < before[b].id);
        }
    }
}

/// Turns the legacy flags of the task rows into timestamps.
pub fn migrate_task_rows(rows: &mut Vec<TaskRow>, now: u64)
    requires
        task_rows_ordered(old(rows)@),
    ensures
        final(rows)@ == task_rows_migrated(old(rows)@, now),
        task_rows_ordered(final(rows)@),
{
    let ghost before = rows@;
    let mut i: usize = 0;
    while i < rows.len()
        invariant
            i <= rows.len(),
            rows.len() == before.len(),
            forall|k: int| 0 <= k < i ==> #[trigger] rows@[k] == before[k].migrated(now),
            forall|k: int| i <= k < rows.len() ==> #[trigger] rows@[k] == before[k],
        decreases rows.len() - i,
    {
        if rows[i].legacy_done && rows[i].task.done_at.is_none() {
            rows[i].task.done_at = Some(now);
        }
        if rows[i].legacy_archived && rows[i].task.archived_at.is_none() {
            rows[i].task.archived_at = Some(now);
        }
        i += 1;
    }
    assert(rows@ =~= task_rows_migrated(before, now));
    proof {
        let after = rows@;
        assert forall|a: int| 0 <= a < after.len() implies (#[trigger] after[a]).task.id
            == before[a].task.id by {}
        assert forall|a: int, b: int| 0 <= a < b < after.len() implies after[a].task.id
            < after[b].task.id by {
            assert(before[a].task.id < before[b].task.id);
        }
    }
}

/// The project rows but the one with this id.
pub fn project_rows_without(v: &Vec<ProjectRow>, id: u64) -> (r: Vec<ProjectRow>)
    requires
        project_rows_ordered(v@),
    ensures
        r@ == v@.filter(project_row_is_not(id)),
        project_rows_ordered(r@),
{
    let mut r: Vec<ProjectRow> = Vec::new();
    let mut i: usize = 0;
    while i < v.len()
        invariant
            i <= v.len(),
            project_rows_ordered(v@),
            r@ == v@.take(i as int).filter(project_row_is_not(id)),
            project_rows_ordered(r@),
            forall|a: int, b: int| 0 <= a < r.len() && i <= b < v.len() ==> r@[a].id < v@[b].id,
        decreases v.len() - i,
    {
        proof {
            lemma_filter_take_step(v@, project_row_is_not(id), i as int);
        }
        if v[i].id != id {
            r.push(v[i].clone());
        }
        i += 1;
    }
    assert(v@.take(v.len() as int) =~= v@);
    r
}

/// The task rows but the one with this id.
pub fn task_rows_without(v: &Vec<TaskRow>, id: u64) -> (r: Vec<TaskRow>)
    requires
        task_rows_ordered(v@),
    ensures
        r@ == v@.filter(task_row_is_not(id)),
        task_rows_ordered(r@),
{
    let mut r: Vec<TaskRow> = Vec::new();
    let mut i: usize = 0;
    while i < v.len()
        invariant
            i <= v.len(),
            task_rows_ordered(v@),
            r@ == v@.take(i as int).filter(task_row_is_not(id)),
            task_rows_ordered(r@),
            forall|a: int, b: int|
                0 <= a < r.len() && i <= b < v.len() ==> r@[a].task.id < v@[b].task.id,
        decreases v.len() - i,
    {
        proof {
            lemma_filter_take_step(v@, task_row_is_not(id), i as int);
        }
        if v[i].task.id != id {
            r.push(v[i].clone());
        }
        i += 1;
    }
    assert(v@.take(v.len() as int) =~= v@);
    r
}

/// The task rows but those of one project.
pub fn task_rows_without_project(v: &Vec<TaskRow>, project_id: u64) -> (r: Vec<TaskRow>)
    requires
        task_rows_ordered(v@),
    ensures
        r@ == v@.filter(task_row_not_of_project(project_id)),
        task_rows_ordered(r@),
{
    let mut r: Vec<TaskRow> = Vec::new();
    let mut i: usize = 0;
    while i < v.len()
        invariant
            i <= v.len(),
            task_rows_ordered(v@),
            r@ == v@.take(i as int).filter(task_row_not_of_project(project_id)),
            task_rows_ordered(r@),
            forall|a: int, b: int|
                0 <= a < r.len() && i <= b < v.len() ==> r@[a].task.id < v@[b].task.id,
        decreases v.len() - i,
    {
        proof {
            lemma_filter_take_step(v@, task_row_not_of_project(project_id), i as int);
        }
        if v[i].task.project_id != project_id {
            r.push(v[i].clone());
        }
        i += 1;
    }
    assert(v@.take(v.len() as int) =~= v@);
    r
}

/// The time entries but those of one project.
pub fn entries_without_project(v: &Vec<TimeEntry>, project_id: u64) -> (r: Vec<TimeEntry>)
    requires
        entries_ordered(v@),
    ensures
        r@ == v@.filter(entry_not_of_project(project_id)),
        entries_ordered(r@),
{
    let mut r: Vec<TimeEntry> = Vec::new();
    let mut i: usize = 0;
    while i < v.len()
        invariant
            i <= v.len(),
            entries_ordered(v@),
            r@ == v@.take(i as int).filter(entry_not_of_project(project_id)),
            entries_ordered(r@),
            forall|a: int, b: int| 0 <= a < r.len() && i <= b < v.len() ==> r@[a].id < v@[b].id,
        decreases v.len() - i,
    {
        proof {
            lemma_filter_take_step(v@, entry_not_of_project(project_id), i as int);
        }
        if v[i].project_id != project_id {
            r.push(v[i]);
        }
        i += 1;
    }
    assert(v@.take(v.len() as int) =~= v@);
    r
}

/// The time entries but those of one task.
pub fn entries_without_task(v: &Vec<TimeEntry>, task_id: u64) -> (r: Vec<TimeEntry>)
    requires
        entries_ordered(v@),
    ensures
        r@ == v@.filter(entry_not_of_task(task_id)),
        entries_ordered(r@),
{
    let mut r: Vec<TimeEntry> = Vec::new();
    let mut i: usize = 0;
    while i < v.len()
        invariant
            i <= v.len(),
            entries_ordered(v@),
            r@ == v@.take(i as int).filter(entry_not_of_task(task_id)),
            entries_ordered(r@),
            forall|a: int, b: int| 0 <= a < r.len() && i <= b < v.len() ==> r@[a].id < v@[b].id,
        decreases v.len() - i,
    {
        proof {
            lemma_filter_take_step(v@, entry_not_of_task(task_id), i as int);
        }
        if v[i].task_id != task_id {
            r.push(v[i]);
        }
        i += 1;
    }
    assert(v@.take(v.len() as int) =~= v@);
    r
}

/// The sessions but those of one task.
pub fn sessions_without_task(v: &Vec<ActiveTracking>, task_id: u64) -> (r: Vec<ActiveTracking>)
    ensures
        r@ == v@.filter(session_not_of_task(task_id)),
{
    let mut r: Vec<ActiveTracking> = Vec::new();
    let mut i: usize = 0;
    while i < v.len()
        invariant
            i <= v.len(),
            r@ == v@.take(i as int).filter(session_not_of_task(task_id)),
        decreases v.len() - i,
    {
        proof {
            lemma_filter_take_step(v@, session_not_of_task(task_id), i as int);
        }
        if v[i].task_id != task_id {
            r.push(v[i]);
        }
        i += 1;
    }
    assert(v@.take(v.len() as int) =~= v@);
    r
}

} // verus!

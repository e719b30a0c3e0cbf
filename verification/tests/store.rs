use rotator::engine::Engine;
use rotator::model::{ActiveTracking, Task, TimeEntry};
use rotator::overlay::{pop_stopped_task, StopQueue, TimerEntry, TimerState};
use rotator::schema::{schema_steps, SchemaOutcome, SchemaStep};
use rotator::store::{ProjectChange, ProjectRow, Store, StoreError, StoreWrite, TaskChange, TaskRow};

fn project_row(id: u64, name: &str) -> ProjectRow {
    ProjectRow {
        id,
        name: name.to_string(),
        current_task_index: 0,
        archived_at: None,
        legacy_archived: false,
    }
}

fn task_row(id: u64, project_id: u64, name: &str) -> TaskRow {
    TaskRow {
        task: Task {
            id,
            project_id,
            name: name.to_string(),
            time_seconds: 0,
            done_at: None,
            archived_at: None,
        },
        legacy_done: false,
        legacy_archived: false,
    }
}

fn entry(id: u64) -> TimeEntry {
    TimeEntry { id, project_id: 1, task_id: 1, start_time: 0, end_time: 10, duration_seconds: 10 }
}

#[test]
fn rows_out_of_order_are_refused() {
    let r = Store::from_rows(vec![project_row(2, "b"), project_row(1, "a")], vec![], vec![], vec![], None);
    assert_eq!(r.err(), Some(StoreError::ProjectsOutOfOrder));
    let r = Store::from_rows(vec![project_row(1, "a"), project_row(1, "b")], vec![], vec![], vec![], None);
    assert_eq!(r.err(), Some(StoreError::ProjectsOutOfOrder));
    let r = Store::from_rows(vec![project_row(u64::MAX, "a")], vec![], vec![], vec![], None);
    assert_eq!(r.err(), Some(StoreError::ProjectsOutOfOrder));
    let r = Store::from_rows(
        vec![project_row(1, "a")],
        vec![task_row(5, 1, "x"), task_row(4, 1, "y")],
        vec![],
        vec![],
        None,
    );
    assert_eq!(r.err(), Some(StoreError::TasksOutOfOrder));
    let r = Store::from_rows(vec![], vec![task_row(4, 1, "y")], vec![], vec![entry(3), entry(3)], None);
    assert_eq!(r.err(), Some(StoreError::EntriesOutOfOrder));
    let r = Store::from_rows(
        vec![project_row(3, "a"), project_row(2, "b")],
        vec![task_row(5, 1, "x"), task_row(4, 1, "y")],
        vec![],
        vec![entry(3), entry(3)],
        None,
    );
    assert_eq!(r.err(), Some(StoreError::ProjectsOutOfOrder));
}

#[test]
fn rows_in_order_are_taken_as_they_are() {
    let sessions = vec![ActiveTracking { project_id: 1, task_id: 2, started_at: 3 }];
    let store = Store::from_rows(
        vec![project_row(1, "a"), project_row(4, "b")],
        vec![task_row(2, 1, "x"), task_row(3, 4, "y")],
        sessions.clone(),
        vec![entry(1), entry(9)],
        Some(1),
    )
    .unwrap();
    assert_eq!(store.project_rows().len(), 2);
    assert_eq!(store.task_rows()[1].task.name, "y");
    assert_eq!(store.session_rows(), &sessions);
    assert_eq!(store.entry_rows().len(), 2);
    assert_eq!(store.saved_project_index(), Some(1));
    assert!(store.journal().is_empty());
    assert_eq!(store.next_project_id(), 5);
    assert_eq!(store.next_task_id(), 4);
}

#[test]
fn inserts_keep_the_rows_in_order_of_id() {
    let mut store = Store::new();
    store.apply(StoreWrite::InsertProject { id: 5, name: "e".to_string() });
    store.apply(StoreWrite::InsertProject { id: 2, name: "b".to_string() });
    store.apply(StoreWrite::InsertProject { id: 9, name: "i".to_string() });
    store.apply(StoreWrite::InsertProject { id: 5, name: "again".to_string() });
    store.apply(StoreWrite::InsertProject { id: u64::MAX, name: "max".to_string() });
    let ids: Vec<u64> = store.project_rows().iter().map(|r| r.id).collect();
    assert_eq!(ids, vec![2, 5, 9]);
    assert_eq!(store.project_rows()[1].name, "e");
    assert_eq!(store.journal().len(), 5);
    store.apply(StoreWrite::InsertTask { id: 7, project_id: 2, name: "t7".to_string(), time_seconds: 60 });
    store.apply(StoreWrite::InsertTask { id: 3, project_id: 5, name: "t3".to_string(), time_seconds: 0 });
    store.apply(StoreWrite::InsertTask { id: 7, project_id: 9, name: "no".to_string(), time_seconds: 0 });
    let ids: Vec<u64> = store.task_rows().iter().map(|r| r.task.id).collect();
    assert_eq!(ids, vec![3, 7]);
    assert_eq!(store.task_rows()[1].task.time_seconds, 60);
    assert_eq!(store.task_rows()[1].task.project_id, 2);
}

#[test]
fn time_entries_receive_the_next_id() {
    let mut store = Store::from_rows(vec![], vec![], vec![], vec![entry(4)], None).unwrap();
    store.apply(StoreWrite::InsertTimeEntry {
        project_id: 1,
        task_id: 2,
        start_time: 30,
        end_time: 40,
        duration_seconds: 10,
    });
    assert_eq!(store.entry_rows().len(), 2);
    assert_eq!(store.entry_rows()[1].id, 5);
    assert_eq!(store.entry_rows()[1].task_id, 2);
    let mut full = Store::from_rows(vec![], vec![], vec![], vec![entry(u64::MAX - 1)], None).unwrap();
    full.apply(StoreWrite::InsertTimeEntry {
        project_id: 1,
        task_id: 2,
        start_time: 30,
        end_time: 40,
        duration_seconds: 10,
    });
    assert_eq!(full.entry_rows().len(), 1);
}

#[test]
fn updates_change_one_column() {
    let mut store = Store::from_rows(
        vec![project_row(1, "a"), project_row(2, "b")],
        vec![task_row(1, 1, "x"), task_row(2, 1, "y"), task_row(3, 2, "z")],
        vec![],
        vec![],
        None,
    )
    .unwrap();
    store.apply(StoreWrite::UpdateTask(2, TaskChange::Name("why".to_string())));
    store.apply(StoreWrite::UpdateTask(2, TaskChange::Time(77)));
    store.apply(StoreWrite::UpdateTask(3, TaskChange::Done(Some(5))));
    store.apply(StoreWrite::UpdateTask(1, TaskChange::Archived(Some(6))));
    store.apply(StoreWrite::UpdateTask(8, TaskChange::Time(1)));
    store.apply(StoreWrite::UpdateProject(2, ProjectChange::Name("bee".to_string())));
    store.apply(StoreWrite::UpdateProject(2, ProjectChange::CurrentTaskIndex(4)));
    store.apply(StoreWrite::UpdateProject(1, ProjectChange::Archived(Some(9))));
    let tasks = store.task_rows();
    assert_eq!(tasks[1].task.name, "why");
    assert_eq!(tasks[1].task.time_seconds, 77);
    assert_eq!(tasks[2].task.done_at, Some(5));
    assert_eq!(tasks[0].task.archived_at, Some(6));
    assert_eq!(tasks[0].task.name, "x");
    assert_eq!(tasks[0].task.time_seconds, 0);
    let projects = store.project_rows();
    assert_eq!(projects[1].name, "bee");
    assert_eq!(projects[1].current_task_index, 4);
    assert_eq!(projects[0].archived_at, Some(9));
    assert_eq!(projects[1].archived_at, None);
    store.apply(StoreWrite::SetProjectTasksArchived { project_id: 1, archived_at: Some(11) });
    let tasks = store.task_rows();
    assert_eq!(tasks[0].task.archived_at, Some(11));
    assert_eq!(tasks[1].task.archived_at, Some(11));
    assert_eq!(tasks[2].task.archived_at, None);
}

#[test]
fn sessions_come_and_go() {
    let mut store = Store::new();
    let a = ActiveTracking { project_id: 1, task_id: 1, started_at: 5 };
    let b = ActiveTracking { project_id: 1, task_id: 2, started_at: 6 };
    store.apply(StoreWrite::AddSession { session: a });
    store.apply(StoreWrite::AddSession { session: b });
    store.apply(StoreWrite::AddSession { session: a });
    assert_eq!(store.session_rows(), &vec![a, b, a]);
    assert_eq!(store.load_active_sessions(), vec![a, b]);
    store.apply(StoreWrite::RemoveSession { task_id: 1 });
    assert_eq!(store.session_rows(), &vec![b]);
    store.apply(StoreWrite::ClearSessions);
    assert!(store.session_rows().is_empty());
    store.apply(StoreWrite::SaveCurrentProjectIndex { index: 3 });
    assert_eq!(store.load_current_project_index(), 3);
    assert_eq!(Store::new().load_current_project_index(), 0);
}

#[test]
fn taking_the_journal_leaves_the_tables() {
    let mut store = Store::new();
    store.apply(StoreWrite::InsertProject { id: 1, name: "a".to_string() });
    store.apply(StoreWrite::ClearSessions);
    let journal = store.take_journal();
    assert_eq!(
        journal,
        vec![StoreWrite::InsertProject { id: 1, name: "a".to_string() }, StoreWrite::ClearSessions]
    );
    assert!(store.journal().is_empty());
    assert_eq!(store.project_rows().len(), 1);
    assert_eq!(journal[0].clone(), journal[0]);
}

#[test]
fn ensure_schema_stamps_flagged_rows_once() {
    let mut done = task_row(1, 1, "done long ago");
    done.legacy_done = true;
    let mut both = task_row(2, 1, "done and archived");
    both.legacy_done = true;
    both.legacy_archived = true;
    both.task.done_at = Some(40);
    let plain = task_row(3, 1, "plain");
    let mut gone = project_row(2, "gone");
    gone.legacy_archived = true;
    let mut store = Store::from_rows(
        vec![project_row(1, "here"), gone],
        vec![done, both, plain],
        vec![],
        vec![],
        None,
    )
    .unwrap();
    store.ensure_schema(1_000);
    let first_projects = store.project_rows().clone();
    let first_tasks = store.task_rows().clone();
    assert_eq!(first_tasks[0].task.done_at, Some(1_000));
    assert_eq!(first_tasks[0].task.archived_at, None);
    assert_eq!(first_tasks[1].task.done_at, Some(40));
    assert_eq!(first_tasks[1].task.archived_at, Some(1_000));
    assert_eq!(first_tasks[2].task.done_at, None);
    assert_eq!(first_tasks[2].task.archived_at, None);
    assert_eq!(first_projects[0].archived_at, None);
    assert_eq!(first_projects[1].archived_at, Some(1_000));
    assert!(first_tasks[0].legacy_done);
    store.ensure_schema(2_000);
    assert_eq!(store.project_rows(), &first_projects);
    assert_eq!(store.task_rows(), &first_tasks);
    assert_eq!(
        store.take_journal(),
        vec![
            StoreWrite::MigrateLegacyFlags { now: 1_000 },
            StoreWrite::MigrateLegacyFlags { now: 2_000 },
        ]
    );
}

#[test]
fn only_visible_tasks_enter_the_rotation() {
    let now: u64 = 100_000;
    let mut fresh = task_row(1, 1, "just done");
    fresh.task.done_at = Some(now - 18_000);
    let mut stale = task_row(2, 1, "done long ago");
    stale.task.done_at = Some(now - 18_001);
    let mut archived = task_row(3, 1, "archived");
    archived.task.archived_at = Some(5);
    let open = task_row(4, 1, "open");
    let other = task_row(5, 2, "other project");
    let mut ahead = task_row(6, 1, "done in the future");
    ahead.task.done_at = Some(now + 50);
    let mut hidden = project_row(3, "hidden");
    hidden.archived_at = Some(7);
    let store = Store::from_rows(
        vec![project_row(1, "p"), project_row(2, "q"), hidden],
        vec![fresh, stale, archived, open, other, ahead],
        vec![],
        vec![],
        None,
    )
    .unwrap();
    let projects = store.load_visible_projects_with_tasks(now);
    assert_eq!(projects.len(), 2);
    let ids: Vec<u64> = projects[0].tasks.iter().map(|t| t.id).collect();
    assert_eq!(ids, vec![1, 4, 6]);
    assert_eq!(projects[1].tasks.len(), 1);
    for p in &projects {
        assert_eq!(p.archived_at, None);
        for t in &p.tasks {
            assert!(t.is_visible(now));
            assert_eq!(t.archived_at, None);
        }
    }
    let all = store.load_all_projects_with_tasks_and_status();
    let names: Vec<&str> = all.iter().map(|p| p.name.as_str()).collect();
    assert_eq!(names, vec!["p", "q", "hidden"]);
    let ids: Vec<u64> = all[0].tasks.iter().map(|t| t.id).collect();
    assert_eq!(ids, vec![1, 2, 4, 6, 3]);
    assert_eq!(all[2].archived_at, Some(7));
}

#[test]
fn visibility_ends_five_hours_after_the_task_was_finished() {
    let mut t = task_row(1, 1, "t").task;
    assert!(t.is_visible(0));
    t.done_at = Some(1_000);
    assert!(t.is_visible(1_000));
    assert!(t.is_visible(19_000));
    assert!(!t.is_visible(19_001));
    assert!(t.is_visible(3));
    t.archived_at = Some(1);
    assert!(!t.is_visible(1_000));
}

#[test]
fn opening_clamps_the_saved_positions() {
    let mut p = project_row(1, "p");
    p.current_task_index = 7;
    let mut q = project_row(2, "q");
    q.current_task_index = 1;
    let store = Store::from_rows(
        vec![p, q],
        vec![task_row(1, 1, "a"), task_row(2, 2, "b"), task_row(3, 2, "c")],
        vec![
            ActiveTracking { project_id: 1, task_id: 1, started_at: 5 },
            ActiveTracking { project_id: 9, task_id: 1, started_at: 6 },
        ],
        vec![],
        Some(5),
    )
    .unwrap();
    let mut e = Engine::open(store, 10);
    assert_eq!(e.get_current_project_index(), 0);
    let projects = e.get_projects();
    assert_eq!(projects[0].current_task_index, 0);
    assert_eq!(projects[1].current_task_index, 1);
    assert_eq!(e.get_active_tracking(), vec![ActiveTracking { project_id: 1, task_id: 1, started_at: 5 }]);
    assert_eq!(e.take_journal(), vec![StoreWrite::MigrateLegacyFlags { now: 10 }]);
    assert_eq!(e.add_project("r".to_string())[2].id, 3);
    assert_eq!(e.add_task(3, "d".to_string()).unwrap().tasks[0].id, 4);
}

#[test]
fn the_newest_stop_request_is_taken_first() {
    let mut q = StopQueue::new();
    assert_eq!(pop_stopped_task(&mut q), None);
    q.push_stopped_task(4);
    q.push_stopped_task(9);
    assert_eq!(q.len(), 2);
    assert_eq!(pop_stopped_task(&mut q), Some(9));
    assert_eq!(pop_stopped_task(&mut q), Some(4));
    assert_eq!(pop_stopped_task(&mut q), None);
    assert_eq!(q.len(), 0);
}

#[test]
fn the_default_timer_state_is_empty() {
    let state = TimerState::default();
    assert!(state.entries.is_empty());
    let state = TimerState {
        entries: vec![TimerEntry {
            task_id: 1,
            project_name: "p".to_string(),
            task_name: "t".to_string(),
            elapsed_seconds: 61,
        }],
    };
    assert_eq!(state.clone(), state);
}

#[test]
fn only_a_missing_table_ends_the_layout_run() {
    let steps = schema_steps();
    assert_eq!(steps.len(), 15);
    assert_eq!(steps[0], SchemaStep::CreateProjects);
    assert_eq!(steps[1], SchemaStep::CreateTasks);
    assert_eq!(steps[14], SchemaStep::CreateTimeEntries);
    let required: Vec<SchemaStep> =
        steps.iter().copied().filter(|s| s.on_result(false) == SchemaOutcome::Abort).collect();
    assert_eq!(
        required,
        vec![
            SchemaStep::CreateProjects,
            SchemaStep::CreateTasks,
            SchemaStep::CreateAppState,
            SchemaStep::CreateActiveTracking,
            SchemaStep::CreateTimeEntries,
        ]
    );
    for s in &steps {
        assert_eq!(s.on_result(true), SchemaOutcome::Continue);
    }
    let copy = steps.iter().position(|s| *s == SchemaStep::CopyActiveTracking).unwrap();
    let drop = steps.iter().position(|s| *s == SchemaStep::DropActiveTracking).unwrap();
    let rename = steps.iter().position(|s| *s == SchemaStep::RenameActiveTrackingCopy).unwrap();
    assert!(copy < drop && drop < rename);
}

#[test]
fn replaying_the_journal_rebuilds_the_tables() {
    let mut e = Engine::open(Store::new(), 10);
    let mut replica = Store::new();
    e.add_project("A".to_string());
    e.add_project("B".to_string());
    e.add_task(1, "a1".to_string());
    e.add_task(2, "b1".to_string());
    e.add_task(2, "b2".to_string());
    e.start_tracking(1, 1, true, 100);
    e.start_tracking(2, 2, true, 110);
    replica.replay(&e.take_journal());
    e.stop_tracking(Some(1), 200);
    e.toggle_task_done(2, 3, true, 210);
    e.rotate_project();
    e.rotate_task();
    e.rename_task(2, 2, "bee".to_string());
    e.remove_task(2, 3, 220);
    e.remove_project(1, 230);
    e.restore_project(1, 240);
    e.start_tracking(2, 2, false, 250);
    e.delete_task_permanent(1);
    e.add_mock_data(40 * 86_400);
    replica.replay(&e.take_journal());
    assert_eq!(replica.project_rows(), e.store().project_rows());
    assert_eq!(replica.task_rows(), e.store().task_rows());
    assert_eq!(replica.session_rows(), e.store().session_rows());
    assert_eq!(replica.entry_rows(), e.store().entry_rows());
    assert_eq!(replica.saved_project_index(), e.store().saved_project_index());
    assert!(e.store().journal().is_empty());
    e.reset_database();
    replica.replay(&e.take_journal());
    assert!(replica.project_rows().is_empty());
    assert!(replica.entry_rows().is_empty());
    assert_eq!(replica.saved_project_index(), None);
}

#[test]
fn the_named_writes_change_the_tables_and_the_journal() {
    let mut store = Store::new();
    store.insert_project(1, "p".to_string());
    store.insert_task(1, 1, "t".to_string(), 5);
    store.update_task_name(1, "u".to_string());
    store.update_task_time(1, 9);
    store.update_task_done(1, Some(3));
    store.update_task_archived(1, Some(4));
    store.update_project_name(1, "q".to_string());
    store.update_project_current_index(1, 2);
    store.update_project_archived(1, Some(6));
    store.insert_time_entry(1, 1, 10, 20, 10);
    store.add_active_session(ActiveTracking { project_id: 1, task_id: 1, started_at: 7 });
    store.save_current_project_index(1);
    let task = &store.task_rows()[0].task;
    assert_eq!(
        task,
        &Task {
            id: 1,
            project_id: 1,
            name: "u".to_string(),
            time_seconds: 9,
            done_at: Some(3),
            archived_at: Some(4),
        }
    );
    let project = &store.project_rows()[0];
    assert_eq!(project.name, "q");
    assert_eq!(project.current_task_index, 2);
    assert_eq!(project.archived_at, Some(6));
    assert_eq!(store.entry_rows().len(), 1);
    assert_eq!(store.session_rows().len(), 1);
    assert_eq!(store.journal().len(), 12);
    assert_eq!(store.journal()[3], StoreWrite::UpdateTask(1, TaskChange::Time(9)));
    store.remove_active_session(1);
    store.add_active_session(ActiveTracking { project_id: 1, task_id: 2, started_at: 7 });
    store.clear_active_sessions();
    assert!(store.session_rows().is_empty());
    store.delete_task_cascade(1);
    assert!(store.task_rows().is_empty());
    assert!(store.entry_rows().is_empty());
    store.insert_task(2, 1, "t".to_string(), 0);
    store.insert_time_entry(1, 2, 10, 20, 10);
    store.delete_project_cascade(1);
    assert!(store.project_rows().is_empty());
    assert!(store.task_rows().is_empty());
    assert!(store.entry_rows().is_empty());
}

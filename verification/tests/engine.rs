use rotator::engine::Engine;
use rotator::model::{ActiveTracking, Project, Task};
use rotator::store::{ProjectChange, Store, StoreWrite, TaskChange};

fn fresh() -> Engine {
    Engine::open(Store::new(), 1_000)
}

fn names(projects: &[Project]) -> Vec<String> {
    projects.iter().map(|p| p.name.clone()).collect()
}

fn task_names(project: &Project) -> Vec<String> {
    project.tasks.iter().map(|t| t.name.clone()).collect()
}

/// An engine with one project `P` (id 1) and tasks `T1`..`T4` (ids 1..=4).
fn four_tasks() -> Engine {
    let mut e = fresh();
    e.add_project("P".to_string());
    for n in ["T1", "T2", "T3", "T4"] {
        e.add_task(1, n.to_string());
    }
    e
}

#[test]
fn open_on_an_empty_store_starts_the_counters_at_one() {
    let mut e = fresh();
    assert!(e.get_projects().is_empty());
    assert_eq!(e.get_current_project_index(), 0);
    assert!(e.get_active_tracking().is_empty());
    assert!(e.get_current_project().is_none());
    let projects = e.add_project("A".to_string());
    assert_eq!(projects.len(), 1);
    assert_eq!(projects[0].id, 1);
    let p = e.add_task(1, "t".to_string()).unwrap();
    assert_eq!(p.tasks[0].id, 1);
    assert_eq!(p.tasks[0].project_id, 1);
    assert_eq!(p.tasks[0].time_seconds, 0);
    assert_eq!(p.tasks[0].done_at, None);
    assert_eq!(p.tasks[0].archived_at, None);
}

#[test]
fn add_project_assigns_increasing_ids_and_journals_the_insert() {
    let mut e = fresh();
    e.take_journal();
    e.add_project("A".to_string());
    let projects = e.add_project("B".to_string());
    assert_eq!(names(&projects), vec!["A", "B"]);
    assert_eq!(projects[0].id, 1);
    assert_eq!(projects[1].id, 2);
    assert_eq!(projects[1].current_task_index, 0);
    let journal = e.take_journal();
    assert_eq!(
        journal,
        vec![
            StoreWrite::InsertProject { id: 1, name: "A".to_string() },
            StoreWrite::InsertProject { id: 2, name: "B".to_string() },
        ]
    );
    assert!(e.take_journal().is_empty());
    assert_eq!(e.store().project_rows().len(), 2);
}

#[test]
fn add_task_to_unknown_project_returns_nothing() {
    let mut e = fresh();
    e.add_project("A".to_string());
    assert!(e.add_task(7, "x".to_string()).is_none());
    assert!(e.get_projects()[0].tasks.is_empty());
    assert!(e.store().task_rows().is_empty());
}

#[test]
fn rotate_project_walks_in_a_circle() {
    let mut e = fresh();
    assert_eq!(e.rotate_project(), (0, None));
    e.add_project("A".to_string());
    e.add_project("B".to_string());
    e.add_project("C".to_string());
    let (i, p) = e.rotate_project();
    assert_eq!(i, 1);
    assert_eq!(p.unwrap().name, "B");
    let (i, _) = e.rotate_project();
    assert_eq!(i, 2);
    let (i, p) = e.rotate_project();
    assert_eq!(i, 0);
    assert_eq!(p.unwrap().name, "A");
    assert_eq!(e.store().saved_project_index(), Some(0));
    assert_eq!(e.get_current_project().unwrap().name, "A");
}

#[test]
fn selecting_a_later_project_moves_it_to_the_front() {
    let mut e = fresh();
    e.add_project("A".to_string());
    e.add_project("B".to_string());
    e.add_project("C".to_string());
    assert_eq!(e.set_current_project(2), 0);
    assert_eq!(names(&e.get_projects()), vec!["C", "A", "B"]);
    assert_eq!(e.get_current_project_index(), 0);
    assert_eq!(e.store().saved_project_index(), Some(0));
}

#[test]
fn selecting_the_first_project_keeps_the_order() {
    let mut e = fresh();
    e.add_project("A".to_string());
    e.add_project("B".to_string());
    e.rotate_project();
    assert_eq!(e.get_current_project_index(), 1);
    assert_eq!(e.set_current_project(0), 0);
    assert_eq!(names(&e.get_projects()), vec!["A", "B"]);
}

#[test]
fn selecting_outside_the_list_changes_nothing() {
    let mut e = fresh();
    e.add_project("A".to_string());
    e.add_project("B".to_string());
    e.rotate_project();
    e.take_journal();
    assert_eq!(e.set_current_project(2), 1);
    assert_eq!(e.set_current_project(usize::MAX), 1);
    assert_eq!(names(&e.get_projects()), vec!["A", "B"]);
    assert!(e.take_journal().is_empty());
}

#[test]
fn rotate_task_skips_finished_tasks() {
    let mut e = four_tasks();
    e.toggle_task_done(1, 1, true, 2_000);
    e.toggle_task_done(1, 3, true, 2_000);
    let t = e.rotate_task().unwrap();
    assert_eq!(t.name, "T2");
    assert_eq!(e.get_projects()[0].current_task_index, 1);
    let t = e.rotate_task().unwrap();
    assert_eq!(t.name, "T4");
    assert_eq!(e.get_projects()[0].current_task_index, 3);
    let t = e.rotate_task().unwrap();
    assert_eq!(t.name, "T2");
    e.toggle_task_done(1, 2, true, 2_001);
    e.toggle_task_done(1, 4, true, 2_001);
    e.take_journal();
    assert!(e.rotate_task().is_none());
    assert_eq!(e.get_projects()[0].current_task_index, 1);
    assert!(e.take_journal().is_empty());
}

#[test]
fn rotate_task_comes_back_to_the_only_open_task() {
    let mut e = four_tasks();
    e.toggle_task_done(1, 2, true, 5);
    e.toggle_task_done(1, 3, true, 5);
    e.toggle_task_done(1, 4, true, 5);
    let t = e.rotate_task().unwrap();
    assert_eq!(t.id, 1);
    assert_eq!(e.get_projects()[0].current_task_index, 0);
    assert_eq!(
        e.take_journal().last(),
        Some(&StoreWrite::UpdateProject(1, ProjectChange::CurrentTaskIndex(0)))
    );
}

#[test]
fn rotate_task_without_projects_or_tasks_returns_nothing() {
    let mut e = fresh();
    assert!(e.rotate_task().is_none());
    e.add_project("A".to_string());
    assert!(e.rotate_task().is_none());
}

#[test]
fn toggle_task_done_stamps_and_clears() {
    let mut e = four_tasks();
    let p = e.toggle_task_done(1, 2, true, 4_242).unwrap();
    assert_eq!(p.tasks[1].done_at, Some(4_242));
    assert_eq!(p.current_task_index, 0);
    assert_eq!(e.store().task_rows()[1].task.done_at, Some(4_242));
    let p = e.toggle_task_done(1, 2, false, 5_000).unwrap();
    assert_eq!(p.tasks[1].done_at, None);
    assert_eq!(e.store().task_rows()[1].task.done_at, None);
    e.take_journal();
    assert!(e.toggle_task_done(9, 2, true, 5_000).is_none());
    assert_eq!(e.store().task_rows()[1].task.done_at, None);
    assert_eq!(e.get_projects()[0].tasks[1].done_at, None);
    let p = e.toggle_task_done(1, 20, true, 5_000).unwrap();
    assert!(p.tasks.iter().all(|t| t.done_at.is_none()));
    assert!(e.store().task_rows().iter().all(|r| r.task.done_at.is_none()));
    assert!(e.take_journal().is_empty());
}

#[test]
fn a_session_under_three_seconds_leaves_no_trace() {
    let mut e = four_tasks();
    let sessions = e.start_tracking(1, 1, false, 100);
    assert_eq!(sessions, vec![ActiveTracking { project_id: 1, task_id: 1, started_at: 100 }]);
    assert_eq!(e.stop_tracking(Some(1), 102), Some(2));
    assert_eq!(e.get_projects()[0].tasks[0].time_seconds, 0);
    assert!(e.get_all_time_entries().is_empty());
    assert!(e.get_active_tracking().is_empty());
    assert!(e.store().session_rows().is_empty());
}

#[test]
fn a_session_of_three_seconds_is_committed() {
    let mut e = four_tasks();
    e.start_tracking(1, 1, false, 100);
    assert_eq!(e.stop_tracking(Some(1), 103), Some(3));
    assert_eq!(e.get_projects()[0].tasks[0].time_seconds, 3);
    let entries = e.get_all_time_entries();
    assert_eq!(entries.len(), 1);
    assert_eq!(entries[0].id, 1);
    assert_eq!(entries[0].project_id, 1);
    assert_eq!(entries[0].task_id, 1);
    assert_eq!(entries[0].start_time, 100);
    assert_eq!(entries[0].end_time, 103);
    assert_eq!(entries[0].duration_seconds, 3);
    assert_eq!(e.store().task_rows()[0].task.time_seconds, 3);
    e.start_tracking(1, 1, false, 200);
    assert_eq!(e.stop_tracking(Some(1), 260), Some(60));
    assert_eq!(e.get_projects()[0].tasks[0].time_seconds, 63);
    assert_eq!(e.get_all_time_entries().len(), 2);
}

#[test]
fn committing_journals_the_time_and_the_entry() {
    let mut e = four_tasks();
    e.start_tracking(1, 2, true, 10);
    e.take_journal();
    e.stop_tracking(Some(2), 20);
    assert_eq!(
        e.take_journal(),
        vec![
            StoreWrite::UpdateTask(2, TaskChange::Time(10)),
            StoreWrite::InsertTimeEntry {
                project_id: 1,
                task_id: 2,
                start_time: 10,
                end_time: 20,
                duration_seconds: 10,
            },
            StoreWrite::RemoveSession { task_id: 2 },
        ]
    );
}

#[test]
fn a_clock_that_ran_backwards_counts_as_no_time() {
    let mut e = four_tasks();
    e.start_tracking(1, 1, false, 500);
    assert_eq!(e.stop_tracking(Some(1), 400), Some(0));
    assert_eq!(e.get_projects()[0].tasks[0].time_seconds, 0);
    assert!(e.get_all_time_entries().is_empty());
}

#[test]
fn stopping_a_task_without_session_returns_nothing() {
    let mut e = four_tasks();
    assert_eq!(e.stop_tracking(Some(1), 10), None);
    assert_eq!(e.stop_tracking(None, 10), None);
    e.start_tracking(1, 1, false, 10);
    e.take_journal();
    assert_eq!(e.stop_tracking(Some(2), 50), None);
    assert_eq!(e.get_active_tracking().len(), 1);
    assert!(e.take_journal().is_empty());
}

#[test]
fn starting_a_tracked_task_again_changes_nothing() {
    let mut e = four_tasks();
    e.start_tracking(1, 1, false, 100);
    e.take_journal();
    let sessions = e.start_tracking(1, 1, false, 150);
    assert_eq!(sessions, vec![ActiveTracking { project_id: 1, task_id: 1, started_at: 100 }]);
    let sessions = e.start_tracking(1, 1, true, 160);
    assert_eq!(sessions.len(), 1);
    assert_eq!(sessions[0].started_at, 100);
    assert!(e.take_journal().is_empty());
}

#[test]
fn exclusive_start_stops_what_was_running() {
    let mut e = fresh();
    e.add_project("One".to_string());
    e.add_project("Two".to_string());
    e.add_task(1, "T1".to_string());
    e.add_task(2, "T2".to_string());
    e.start_tracking(1, 1, false, 1_000);
    let sessions = e.start_tracking(2, 2, false, 1_060);
    assert_eq!(sessions, vec![ActiveTracking { project_id: 2, task_id: 2, started_at: 1_060 }]);
    assert_eq!(e.get_active_tracking(), sessions);
    assert_eq!(e.get_projects()[0].tasks[0].time_seconds, 60);
    let entries = e.get_all_time_entries();
    assert_eq!(entries.len(), 1);
    assert_eq!(entries[0].task_id, 1);
    assert_eq!(entries[0].duration_seconds, 60);
    assert_eq!(e.store().session_rows(), &sessions);
}

#[test]
fn a_start_for_an_unknown_task_is_turned_down() {
    let mut e = fresh();
    e.add_project("One".to_string());
    e.add_project("Two".to_string());
    e.add_task(1, "T1".to_string());
    e.add_task(2, "T2".to_string());
    e.start_tracking(1, 1, false, 0);
    e.take_journal();
    let running = vec![ActiveTracking { project_id: 1, task_id: 1, started_at: 0 }];
    assert_eq!(e.start_tracking(1, 99, false, 30), running);
    assert_eq!(e.start_tracking(9, 2, false, 30), running);
    assert_eq!(e.start_tracking(1, 2, false, 30), running);
    assert_eq!(e.start_tracking(1, 2, true, 30), running);
    assert_eq!(e.get_active_tracking(), running);
    assert_eq!(e.get_projects()[0].tasks[0].time_seconds, 0);
    assert!(e.get_all_time_entries().is_empty());
    assert!(e.take_journal().is_empty());
}

#[test]
fn concurrent_sessions_run_side_by_side() {
    let mut e = four_tasks();
    e.start_tracking(1, 1, true, 100);
    let sessions = e.start_tracking(1, 2, true, 110);
    assert_eq!(
        sessions,
        vec![
            ActiveTracking { project_id: 1, task_id: 1, started_at: 100 },
            ActiveTracking { project_id: 1, task_id: 2, started_at: 110 },
        ]
    );
    assert_eq!(e.stop_tracking(None, 120), Some(30));
    assert!(e.get_active_tracking().is_empty());
    let p = &e.get_projects()[0];
    assert_eq!(p.tasks[0].time_seconds, 20);
    assert_eq!(p.tasks[1].time_seconds, 10);
    let entries = e.get_all_time_entries();
    assert_eq!(entries.len(), 2);
    assert_eq!(entries[0].task_id, 1);
    assert_eq!(entries[1].task_id, 2);
}

#[test]
fn stopping_all_counts_short_sessions_in_the_sum_only() {
    let mut e = four_tasks();
    e.start_tracking(1, 1, true, 100);
    e.start_tracking(1, 2, true, 109);
    assert_eq!(e.stop_tracking(None, 110), Some(11));
    let p = &e.get_projects()[0];
    assert_eq!(p.tasks[0].time_seconds, 10);
    assert_eq!(p.tasks[1].time_seconds, 0);
    assert_eq!(e.get_all_time_entries().len(), 1);
}

#[test]
fn starting_an_unknown_task_opens_no_session() {
    let mut e = four_tasks();
    e.take_journal();
    assert!(e.start_tracking(1, 9, true, 5).is_empty());
    assert!(e.start_tracking(2, 1, true, 5).is_empty());
    assert!(e.get_active_tracking().is_empty());
    assert!(e.take_journal().is_empty());
}

#[test]
fn cumulative_time_stops_at_the_largest_number() {
    let rows = vec![rotator::store::TaskRow {
        task: Task {
            id: 1,
            project_id: 1,
            name: "t".to_string(),
            time_seconds: u64::MAX - 5,
            done_at: None,
            archived_at: None,
        },
        legacy_done: false,
        legacy_archived: false,
    }];
    let projects = vec![rotator::store::ProjectRow {
        id: 1,
        name: "p".to_string(),
        current_task_index: 0,
        archived_at: None,
        legacy_archived: false,
    }];
    let store = Store::from_rows(projects, rows, vec![], vec![], None).unwrap();
    let mut e = Engine::open(store, 50);
    e.start_tracking(1, 1, false, 50);
    assert_eq!(e.stop_tracking(None, 150), Some(100));
    assert_eq!(e.get_projects()[0].tasks[0].time_seconds, u64::MAX);
}

#[test]
fn rename_project_and_task() {
    let mut e = four_tasks();
    e.take_journal();
    let projects = e.rename_project(1, "Q".to_string());
    assert_eq!(names(&projects), vec!["Q"]);
    let p = e.rename_task(1, 3, "third".to_string()).unwrap();
    assert_eq!(task_names(&p), vec!["T1", "T2", "third", "T4"]);
    assert_eq!(e.store().project_rows()[0].name, "Q");
    assert_eq!(e.store().task_rows()[2].task.name, "third");
    assert_eq!(
        e.take_journal(),
        vec![
            StoreWrite::UpdateProject(1, ProjectChange::Name("Q".to_string())),
            StoreWrite::UpdateTask(3, TaskChange::Name("third".to_string())),
        ]
    );
    assert_eq!(names(&e.rename_project(5, "Z".to_string())), vec!["Q"]);
    assert!(e.rename_task(5, 3, "z".to_string()).is_none());
    let p = e.rename_task(1, 30, "z".to_string()).unwrap();
    assert_eq!(task_names(&p), vec!["T1", "T2", "third", "T4"]);
    assert!(e.take_journal().is_empty());
}

#[test]
fn remove_task_archives_and_clamps_the_position() {
    let mut e = four_tasks();
    e.rotate_task();
    e.rotate_task();
    e.rotate_task();
    assert_eq!(e.get_projects()[0].current_task_index, 3);
    e.start_tracking(1, 4, false, 10);
    let p = e.remove_task(1, 4, 77).unwrap();
    assert_eq!(task_names(&p), vec!["T1", "T2", "T3"]);
    assert_eq!(p.current_task_index, 0);
    assert!(e.get_active_tracking().is_empty());
    assert_eq!(e.store().task_rows()[3].task.archived_at, Some(77));
    assert_eq!(e.store().project_rows()[0].current_task_index, 0);
    assert!(e.get_all_time_entries().is_empty());
    assert!(e.remove_task(3, 1, 78).is_none());
    let p = e.remove_task(1, 40, 78).unwrap();
    assert_eq!(p.tasks.len(), 3);
}

#[test]
fn removing_a_task_that_the_project_does_not_hold_changes_nothing() {
    let mut e = fresh();
    e.add_project("A".to_string());
    e.add_project("B".to_string());
    e.add_task(1, "a1".to_string());
    e.add_task(2, "b1".to_string());
    e.start_tracking(2, 2, false, 10);
    e.take_journal();
    let p = e.remove_task(1, 2, 50).unwrap();
    assert_eq!(task_names(&p), vec!["a1"]);
    assert_eq!(e.get_active_tracking().len(), 1);
    assert_eq!(e.store().session_rows().len(), 1);
    assert_eq!(e.store().task_rows()[1].task.archived_at, None);
    assert!(e.take_journal().is_empty());
}

#[test]
fn remove_project_archives_it_with_its_sessions() {
    let mut e = fresh();
    e.add_project("A".to_string());
    e.add_project("B".to_string());
    e.add_task(1, "a1".to_string());
    e.add_task(2, "b1".to_string());
    e.start_tracking(1, 1, true, 10);
    e.start_tracking(2, 2, true, 10);
    e.rotate_project();
    let projects = e.remove_project(2, 500);
    assert_eq!(names(&projects), vec!["A"]);
    assert_eq!(e.get_current_project_index(), 0);
    assert_eq!(
        e.get_active_tracking(),
        vec![ActiveTracking { project_id: 1, task_id: 1, started_at: 10 }]
    );
    assert_eq!(e.store().session_rows().len(), 1);
    assert_eq!(e.store().project_rows()[1].archived_at, Some(500));
    assert_eq!(e.store().task_rows()[1].task.archived_at, Some(500));
    assert_eq!(e.store().task_rows()[0].task.archived_at, None);
    assert_eq!(names(&e.remove_project(9, 600)), vec!["A"]);
}

#[test]
fn archive_and_restore_round_trip() {
    let mut e = fresh();
    e.add_project("A".to_string());
    e.add_project("B".to_string());
    e.add_task(2, "b1".to_string());
    e.add_task(2, "b2".to_string());
    e.remove_project(2, 500);
    assert_eq!(names(&e.get_projects()), vec!["A"]);
    let all = e.get_all_projects_with_status();
    assert_eq!(names(&all), vec!["A", "B"]);
    assert_eq!(all[0].archived_at, None);
    assert_eq!(all[1].archived_at, Some(500));
    assert_eq!(task_names(&all[1]), vec!["b1", "b2"]);
    assert_eq!(all[1].tasks[0].archived_at, Some(500));
    let projects = e.restore_project(2, 600);
    assert_eq!(names(&projects), vec!["A", "B"]);
    assert_eq!(task_names(&projects[1]), vec!["b1", "b2"]);
    assert_eq!(projects[1].archived_at, None);
    assert_eq!(projects[1].tasks[0].archived_at, None);
    let all = e.get_all_projects_with_status();
    assert_eq!(all[1].archived_at, None);
    assert_eq!(all[1].tasks[1].archived_at, None);
}

#[test]
fn restoring_an_unknown_project_adds_nothing() {
    let mut e = fresh();
    e.add_project("A".to_string());
    assert_eq!(names(&e.restore_project(5, 10)), vec!["A"]);
}

#[test]
fn restore_task_brings_the_task_back() {
    let mut e = four_tasks();
    e.remove_task(1, 2, 40);
    let all = e.get_all_projects_with_status();
    assert_eq!(task_names(&all[0]), vec!["T1", "T3", "T4", "T2"]);
    let p = e.restore_task(1, 2).unwrap();
    assert_eq!(task_names(&p), vec!["T1", "T3", "T4", "T2"]);
    assert_eq!(p.tasks[3].archived_at, None);
    assert_eq!(e.store().task_rows()[1].task.archived_at, None);
    assert!(e.restore_task(6, 2).is_none());
    let p = e.restore_task(1, 60).unwrap();
    assert_eq!(p.tasks.len(), 4);
}

#[test]
fn restoring_what_the_rotation_holds_changes_nothing() {
    let mut e = fresh();
    e.add_project("A".to_string());
    e.add_project("B".to_string());
    e.add_task(1, "a1".to_string());
    e.add_task(2, "b1".to_string());
    e.remove_task(2, 2, 40);
    e.take_journal();
    assert_eq!(names(&e.restore_project(1, 50)), vec!["A", "B"]);
    let p = e.restore_task(1, 1).unwrap();
    assert_eq!(task_names(&p), vec!["a1"]);
    let p = e.restore_task(1, 2).unwrap();
    assert_eq!(task_names(&p), vec!["a1"]);
    assert!(e.restore_task(7, 2).is_none());
    assert_eq!(e.store().task_rows()[1].task.archived_at, Some(40));
    assert!(e.take_journal().is_empty());
    let p = e.restore_task(2, 2).unwrap();
    assert_eq!(task_names(&p), vec!["b1"]);
    assert_eq!(e.store().task_rows()[1].task.archived_at, None);
    let ids: Vec<u64> = e.get_projects().iter().map(|p| p.id).collect();
    assert_eq!(ids, vec![1, 2]);
}

#[test]
fn a_restored_project_stands_in_the_rotation_once() {
    let mut e = four_tasks();
    e.remove_task(1, 3, 30);
    e.remove_project(1, 40);
    assert!(e.get_projects().is_empty());
    e.take_journal();
    assert!(e.restore_project(9, 50).is_empty());
    assert!(e.take_journal().is_empty());
    let projects = e.restore_project(1, 50);
    assert_eq!(projects.len(), 1);
    assert_eq!(task_names(&projects[0]), vec!["T1", "T2", "T3", "T4"]);
    let projects = e.restore_project(1, 60);
    assert_eq!(projects.len(), 1);
    assert_eq!(e.get_all_projects_with_status().len(), 1);
}

#[test]
fn permanent_delete_removes_rows_and_entries() {
    let mut e = four_tasks();
    e.add_project("Q".to_string());
    e.add_task(2, "q1".to_string());
    e.start_tracking(1, 1, true, 0);
    e.start_tracking(2, 5, true, 0);
    e.stop_tracking(None, 100);
    assert_eq!(e.get_all_time_entries().len(), 2);
    assert!(e.delete_task_permanent(1));
    assert_eq!(e.get_all_time_entries().len(), 1);
    assert_eq!(e.store().task_rows().len(), 4);
    assert_eq!(e.get_projects()[0].tasks.len(), 4);
    assert!(e.delete_project_permanent(2));
    assert!(e.get_all_time_entries().is_empty());
    assert_eq!(e.store().project_rows().len(), 1);
    assert_eq!(e.store().task_rows().len(), 3);
    assert_eq!(e.get_projects().len(), 2);
}

#[test]
fn reset_wipes_everything_and_restarts_the_ids() {
    let mut e = four_tasks();
    e.start_tracking(1, 1, true, 0);
    e.stop_tracking(None, 100);
    e.start_tracking(1, 2, true, 100);
    assert!(e.reset_database().is_empty());
    assert!(e.get_projects().is_empty());
    assert!(e.get_active_tracking().is_empty());
    assert!(e.get_all_time_entries().is_empty());
    assert!(e.get_all_projects_with_status().is_empty());
    assert_eq!(e.store().saved_project_index(), None);
    assert_eq!(e.get_current_project_index(), 0);
    let projects = e.add_project("N".to_string());
    assert_eq!(projects[0].id, 1);
    assert_eq!(e.add_task(1, "n".to_string()).unwrap().tasks[0].id, 1);
}

#[test]
fn rotation_moves_to_the_first_open_task_and_stays_when_all_are_done() {
    let mut e = four_tasks();
    e.toggle_task_done(1, 1, true, 2_000);
    e.toggle_task_done(1, 3, true, 2_000);
    assert_eq!(e.get_projects()[0].current_task_index, 0);
    let t = e.rotate_task().unwrap();
    assert_eq!(t.id, 2);
    assert_eq!(t.name, "T2");
    assert_eq!(e.get_projects()[0].current_task_index, 1);
    e.toggle_task_done(1, 2, true, 2_010);
    e.toggle_task_done(1, 4, true, 2_010);
    assert!(e.rotate_task().is_none());
    assert_eq!(e.get_projects()[0].current_task_index, 1);
    assert_eq!(e.store().project_rows()[0].current_task_index, 1);
}

#[test]
fn a_task_is_finished_at_the_second_of_the_call() {
    let mut e = four_tasks();
    let now: u64 = 1_700_000_000;
    let p = e.toggle_task_done(1, 3, true, now).unwrap();
    for t in &p.tasks {
        match t.done_at {
            None => {}
            Some(d) => assert!(0 < d && d <= now),
        }
    }
    assert_eq!(p.tasks[2].done_at, Some(now));
    let reopened = Engine::open(
        Store::from_rows(
            e.store().project_rows().clone(),
            e.store().task_rows().clone(),
            vec![],
            vec![],
            None,
        )
        .unwrap(),
        now + 18_000,
    );
    assert_eq!(reopened.get_projects()[0].tasks.len(), 4);
    let later = Engine::open(
        Store::from_rows(
            e.store().project_rows().clone(),
            e.store().task_rows().clone(),
            vec![],
            vec![],
            None,
        )
        .unwrap(),
        now + 18_001,
    );
    let ids: Vec<u64> = later.get_projects()[0].tasks.iter().map(|t| t.id).collect();
    assert_eq!(ids, vec![1, 2, 4]);
}

#[test]
fn an_engine_reopens_where_it_was_left() {
    let mut e = fresh();
    e.add_project("A".to_string());
    e.add_project("B".to_string());
    e.add_task(2, "b1".to_string());
    e.add_task(2, "b2".to_string());
    e.rotate_project();
    e.rotate_task();
    e.start_tracking(2, 2, false, 50);
    e.remove_project(1, 60);
    let store = Store::from_rows(
        e.store().project_rows().clone(),
        e.store().task_rows().clone(),
        e.store().session_rows().clone(),
        e.store().entry_rows().clone(),
        e.store().saved_project_index(),
    )
    .unwrap();
    let mut again = Engine::open(store, 70);
    assert_eq!(names(&again.get_projects()), vec!["B"]);
    assert_eq!(again.get_current_project_index(), 0);
    assert_eq!(again.get_projects()[0].current_task_index, 1);
    assert_eq!(
        again.get_active_tracking(),
        vec![ActiveTracking { project_id: 2, task_id: 2, started_at: 50 }]
    );
    assert_eq!(again.stop_tracking(None, 80), Some(30));
    assert_eq!(again.add_project("C".to_string())[1].id, 3);
    assert_eq!(again.add_task(3, "c1".to_string()).unwrap().tasks[0].id, 3);
}

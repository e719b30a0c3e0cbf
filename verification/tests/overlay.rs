use rotator::engine::Engine;
use rotator::overlay::{
    format_elapsed, handle_click, hovered_row, pop_stopped_task, truncate_label, ClickAction,
    StopQueue, TimerEntry, TimerState, MAX_PROJECT_LABEL, MAX_TASK_LABEL,
};
use rotator::seed::{mock_projects, seed_seconds, span_at, takes_span, SeedProject, SeedSpan, SEED_SPANS};
use rotator::store::Store;

fn timer(task_id: u64) -> TimerEntry {
    TimerEntry {
        task_id,
        project_name: "p".to_string(),
        task_name: "t".to_string(),
        elapsed_seconds: 0,
    }
}

#[test]
fn elapsed_seconds_as_text() {
    assert_eq!(format_elapsed(0), "0:00");
    assert_eq!(format_elapsed(9), "0:09");
    assert_eq!(format_elapsed(61), "1:01");
    assert_eq!(format_elapsed(3599), "59:59");
    assert_eq!(format_elapsed(3600), "1:00:00");
    assert_eq!(format_elapsed(3661), "1:01:01");
    assert_eq!(format_elapsed(360_000 + 59), "100:00:59");
    assert_eq!(format_elapsed(u64::MAX), "5124095576030431:00:15");
}

#[test]
fn long_labels_end_in_an_ellipsis() {
    assert_eq!(truncate_label("short", 20), "short");
    assert_eq!(truncate_label("", 20), "");
    assert_eq!(truncate_label("exactly twenty chars", MAX_PROJECT_LABEL), "exactly twenty chars");
    assert_eq!(truncate_label("exactly twenty chars!", MAX_PROJECT_LABEL), "exactly twenty char\u{2026}");
    assert_eq!(truncate_label("\u{e4}\u{f6}\u{fc}\u{df}", 3), "\u{e4}\u{f6}\u{2026}");
    assert_eq!(truncate_label("ab", 1), "\u{2026}");
    assert_eq!(truncate_label("ab", 0), "\u{2026}");
    let long = "a".repeat(31);
    assert_eq!(truncate_label(&long, MAX_TASK_LABEL).chars().count(), 30);
}

#[test]
fn a_click_on_a_stop_button_queues_the_request() {
    let state = TimerState { entries: vec![timer(7), timer(8)] };
    let mut q = StopQueue::new();
    assert_eq!(handle_click(&mut q, &state, 1, true), ClickAction::StopRequested(8));
    assert_eq!(handle_click(&mut q, &state, 0, false), ClickAction::ShowMainWindow);
    assert_eq!(handle_click(&mut q, &state, 2, true), ClickAction::Nothing);
    assert_eq!(handle_click(&mut q, &TimerState::default(), 0, true), ClickAction::Nothing);
    assert_eq!(q.len(), 1);
    assert_eq!(pop_stopped_task(&mut q), Some(8));
    assert_eq!(hovered_row(&state, 1, true), Some(1));
    assert_eq!(hovered_row(&state, 1, false), None);
    assert_eq!(hovered_row(&state, 2, true), None);
}

#[test]
fn the_snapshot_lists_the_running_timers() {
    let mut e = Engine::open(Store::new(), 1);
    e.add_project("Work".to_string());
    e.add_project("Home".to_string());
    e.add_task(1, "write".to_string());
    e.add_task(2, "cook".to_string());
    e.start_tracking(2, 2, true, 100);
    e.start_tracking(1, 1, true, 130);
    let state = e.timer_state(190);
    assert_eq!(
        state.entries,
        vec![
            TimerEntry {
                task_id: 2,
                project_name: "Home".to_string(),
                task_name: "cook".to_string(),
                elapsed_seconds: 90,
            },
            TimerEntry {
                task_id: 1,
                project_name: "Work".to_string(),
                task_name: "write".to_string(),
                elapsed_seconds: 60,
            },
        ]
    );
    assert_eq!(e.timer_state(50).entries[0].elapsed_seconds, 0);
    e.rename_task(2, 2, "bake".to_string());
    assert_eq!(e.timer_state(190).entries[0].task_name, "bake");
    e.delete_project_permanent(1);
    assert_eq!(e.timer_state(190).entries.len(), 2);
    e.stop_tracking(None, 200);
    assert!(e.timer_state(300).entries.is_empty());
}

#[test]
fn the_template_of_sample_time() {
    assert_eq!(SEED_SPANS, 28);
    assert_eq!(span_at(0), SeedSpan { days_ago: 0, hour: 9, minutes: 45 });
    assert_eq!(span_at(3), SeedSpan { days_ago: 1, hour: 10, minutes: 60 });
    assert_eq!(span_at(19), SeedSpan { days_ago: 7, hour: 14, minutes: 30 });
    assert_eq!(span_at(27), SeedSpan { days_ago: 30, hour: 15, minutes: 30 });
    assert!(!takes_span(0, 0));
    assert!(takes_span(0, 1));
    assert!(takes_span(3, 0));
    assert!(!takes_span(3, 2));
    assert!(!takes_span(3, 7));
    let totals: Vec<u64> = (0..11).map(seed_seconds).collect();
    assert_eq!(
        totals,
        vec![40500, 48900, 46200, 40500, 48900, 40500, 48900, 46200, 40500, 48900, 40500]
    );
}

#[test]
fn mock_data_fills_three_projects() {
    let now: u64 = 40 * 86_400 + 12_345;
    let mut e = Engine::open(Store::new(), now);
    e.add_project("mine".to_string());
    let projects = e.add_mock_data(now);
    let names: Vec<&str> = projects.iter().map(|p| p.name.as_str()).collect();
    assert_eq!(names, vec!["mine", "Work", "Personal", "Learning"]);
    let ids: Vec<u64> = projects.iter().map(|p| p.id).collect();
    assert_eq!(ids, vec![1, 2, 3, 4]);
    let work: Vec<&str> = projects[1].tasks.iter().map(|t| t.name.as_str()).collect();
    assert_eq!(work, vec!["Code review", "Write documentation", "Fix bugs", "Team meeting"]);
    let learning: Vec<&str> = projects[3].tasks.iter().map(|t| t.name.as_str()).collect();
    assert_eq!(learning, vec!["Online course", "Practice coding", "Watch tutorials"]);
    let times: Vec<u64> =
        projects.iter().flat_map(|p| p.tasks.iter().map(|t| t.time_seconds)).collect();
    assert_eq!(
        times,
        vec![40500, 48900, 46200, 40500, 48900, 40500, 48900, 46200, 40500, 48900, 40500]
    );
    let task_ids: Vec<u64> = projects.iter().flat_map(|p| p.tasks.iter().map(|t| t.id)).collect();
    assert_eq!(task_ids, (1..=11).collect::<Vec<u64>>());
    assert_eq!(projects[2].tasks[0].project_id, 3);
    let ledger = e.store().entry_rows();
    assert_eq!(ledger.len(), 202);
    assert_eq!(ledger[0].id, 1);
    assert_eq!(ledger[0].project_id, 2);
    assert_eq!(ledger[0].task_id, 1);
    assert_eq!(ledger[0].start_time, 3_405_600);
    assert_eq!(ledger[0].end_time, 3_409_200);
    assert_eq!(ledger[0].duration_seconds, 3_600);
    let of_first: u64 = ledger.iter().filter(|x| x.task_id == 1).map(|x| x.duration_seconds).sum();
    assert_eq!(of_first, 40500);
    assert_eq!(e.store().task_rows()[0].task.time_seconds, 40500);
    assert_eq!(e.add_task(2, "next".to_string()).unwrap().tasks[4].id, 12);
    let stats = e.get_project_time_stats(0, u64::MAX);
    assert_eq!(stats.len(), 3);
    assert_eq!(stats[0].project_name, "Personal");
    assert_eq!(stats[0].total_seconds, 48900 + 40500 + 48900 + 46200);
}

#[test]
fn sample_time_before_the_epoch_starts_on_its_first_day() {
    let mut e = Engine::open(Store::new(), 5);
    e.seed(&vec![SeedProject { name: "p".to_string(), tasks: vec!["t".to_string()] }], 2 * 86_400 + 5);
    let ledger = e.store().entry_rows();
    assert_eq!(ledger.len(), 16);
    assert_eq!(ledger[15].start_time, 50_400);
    assert_eq!(ledger[15].end_time, 50_400 + 45 * 60);
    assert_eq!(mock_projects().len(), 3);
    assert!(e.seed(&vec![], 0).len() == 1);
}

use rotator::calendar::{date_of_day, date_string, local_date, local_day_number, CivilDate};
use rotator::engine::Engine;
use rotator::model::TimeEntry;
use rotator::stats::{
    find_offset, DailyActivity, DayTotal, HourlyActivity, OffsetAt, ProjectTimeStats, ProjectTotal,
};
use rotator::store::{ProjectRow, Store};

fn entry(id: u64, project_id: u64, task_id: u64, start_time: u64, duration_seconds: u64) -> TimeEntry {
    TimeEntry {
        id,
        project_id,
        task_id,
        start_time,
        end_time: start_time + duration_seconds,
        duration_seconds,
    }
}

fn project_row(id: u64, name: &str) -> ProjectRow {
    ProjectRow {
        id,
        name: name.to_string(),
        current_task_index: 0,
        archived_at: None,
        legacy_archived: false,
    }
}

fn ledger(entries: Vec<TimeEntry>) -> Store {
    Store::from_rows(vec![], vec![], vec![], entries, None).unwrap()
}

const DAY: u64 = 86_400;

/// The table that gives every entry of a store the same offset.
fn zone(store: &Store, utc_offset_seconds: i32) -> Vec<OffsetAt> {
    store.entry_rows().iter().map(|e| OffsetAt { at: e.start_time, utc_offset_seconds }).collect()
}

#[test]
fn two_entries_in_one_hour_add_up() {
    let store = ledger(vec![entry(1, 1, 1, 9 * 3600 + 60, 1800), entry(2, 1, 2, 9 * 3600 + 3000, 900)]);
    assert_eq!(
        store.query_hourly_activity(0, DAY),
        vec![HourlyActivity { hour: 9, total_seconds: 2700 }]
    );
}

#[test]
fn hourly_activity_folds_the_days_into_one() {
    let store = ledger(vec![
        entry(1, 1, 1, 23 * 3600, 10),
        entry(2, 1, 1, DAY + 2 * 3600 + 5, 20),
        entry(3, 1, 1, 2 * DAY + 2 * 3600 + 3599, 30),
        entry(4, 1, 1, 3 * DAY, 40),
    ]);
    assert_eq!(
        store.query_hourly_activity(0, 10 * DAY),
        vec![
            HourlyActivity { hour: 0, total_seconds: 40 },
            HourlyActivity { hour: 2, total_seconds: 50 },
            HourlyActivity { hour: 23, total_seconds: 10 },
        ]
    );
}

#[test]
fn hourly_activity_takes_the_range_with_both_ends() {
    let store = ledger(vec![entry(1, 1, 1, 100, 10), entry(2, 1, 1, 200, 20), entry(3, 1, 1, 300, 30)]);
    assert_eq!(
        store.query_hourly_activity(100, 200),
        vec![HourlyActivity { hour: 0, total_seconds: 30 }]
    );
    assert_eq!(
        store.query_hourly_activity(101, 300),
        vec![HourlyActivity { hour: 0, total_seconds: 50 }]
    );
    assert!(store.query_hourly_activity(301, 400).is_empty());
    assert!(store.query_hourly_activity(200, 100).is_empty());
}

#[test]
fn hourly_sums_stop_at_the_largest_number() {
    let store = ledger(vec![entry(1, 1, 1, 0, 0), entry(2, 1, 1, 1, 0)]);
    let mut rows = store.entry_rows().clone();
    rows[0].duration_seconds = u64::MAX - 1;
    rows[1].duration_seconds = 5;
    let store = ledger(rows);
    assert_eq!(
        store.query_hourly_activity(0, 10),
        vec![HourlyActivity { hour: 0, total_seconds: u64::MAX }]
    );
}

#[test]
fn entries_are_listed_by_start_and_then_by_id() {
    let store = ledger(vec![
        entry(1, 1, 1, 500, 10),
        entry(2, 1, 2, 100, 10),
        entry(3, 2, 3, 500, 10),
        entry(4, 2, 3, 300, 10),
        entry(7, 2, 3, 100, 10),
    ]);
    let ids: Vec<u64> = store.query_all_time_entries().iter().map(|e| e.id).collect();
    assert_eq!(ids, vec![2, 7, 4, 1, 3]);
    let ids: Vec<u64> = store.query_time_entries(100, 300).iter().map(|e| e.id).collect();
    assert_eq!(ids, vec![2, 7, 4]);
    let ids: Vec<u64> = store.query_time_entries(301, 500).iter().map(|e| e.id).collect();
    assert_eq!(ids, vec![1, 3]);
    assert!(store.query_time_entries(501, 600).is_empty());
}

#[test]
fn projects_are_ranked_by_their_time() {
    let store = ledger(vec![
        entry(1, 3, 1, 10, 100),
        entry(2, 1, 2, 20, 50),
        entry(3, 2, 3, 30, 400),
        entry(4, 1, 2, 40, 50),
        entry(5, 9, 2, 500, 1000),
    ]);
    assert_eq!(
        store.query_project_totals(0, 100),
        vec![
            ProjectTotal { project_id: 2, total_seconds: 400 },
            ProjectTotal { project_id: 1, total_seconds: 100 },
            ProjectTotal { project_id: 3, total_seconds: 100 },
        ]
    );
    assert_eq!(
        store.query_project_totals(0, 500)[0],
        ProjectTotal { project_id: 9, total_seconds: 1000 }
    );
    assert!(store.query_project_totals(41, 499).is_empty());
}

#[test]
fn project_stats_carry_the_names_of_the_rotation() {
    let store = Store::from_rows(
        vec![project_row(1, "Work"), project_row(2, "Home")],
        vec![],
        vec![],
        vec![entry(1, 1, 1, 10, 100), entry(2, 2, 1, 20, 300), entry(3, 5, 1, 30, 200)],
        None,
    )
    .unwrap();
    let e = Engine::open(store, 1_000);
    assert_eq!(
        e.get_project_time_stats(0, 100),
        vec![
            ProjectTimeStats { project_id: 2, project_name: "Home".to_string(), total_seconds: 300 },
            ProjectTimeStats {
                project_id: 5,
                project_name: "Unknown".to_string(),
                total_seconds: 200,
            },
            ProjectTimeStats { project_id: 1, project_name: "Work".to_string(), total_seconds: 100 },
        ]
    );
}

#[test]
fn a_project_deleted_for_good_shows_as_unknown() {
    let mut e = Engine::open(Store::new(), 1);
    e.add_project("A".to_string());
    e.add_task(1, "t".to_string());
    e.start_tracking(1, 1, false, 100);
    e.stop_tracking(None, 200);
    e.remove_project(1, 300);
    let stats = e.get_project_time_stats(0, 1_000);
    assert_eq!(stats.len(), 1);
    assert_eq!(stats[0].project_name, "Unknown");
    assert_eq!(stats[0].total_seconds, 100);
    e.delete_project_permanent(1);
    assert!(e.get_project_time_stats(0, 1_000).is_empty());
}

#[test]
fn daily_totals_follow_the_local_day() {
    let store = ledger(vec![
        entry(1, 1, 1, DAY - 1, 10),
        entry(2, 1, 1, DAY, 20),
        entry(3, 1, 1, 2 * DAY - 1, 30),
        entry(4, 1, 1, 5 * DAY + 7, 40),
    ]);
    assert_eq!(
        store.query_daily_totals(0, 10 * DAY, &vec![]),
        vec![
            DayTotal { day: 0, total_seconds: 10 },
            DayTotal { day: 1, total_seconds: 50 },
            DayTotal { day: 5, total_seconds: 40 },
        ]
    );
    assert_eq!(
        store.query_daily_totals(0, 10 * DAY, &zone(&store, 1)),
        vec![
            DayTotal { day: 1, total_seconds: 30 },
            DayTotal { day: 2, total_seconds: 30 },
            DayTotal { day: 5, total_seconds: 40 },
        ]
    );
    assert_eq!(
        store.query_daily_totals(DAY, 2 * DAY, &zone(&store, -3600)),
        vec![DayTotal { day: 0, total_seconds: 20 }, DayTotal { day: 1, total_seconds: 30 }]
    );
}

#[test]
fn daily_activity_names_the_date() {
    let store = ledger(vec![
        entry(1, 1, 1, 1_709_251_200, 600),
        entry(2, 1, 1, 1_709_164_800 + 3600, 300),
        entry(3, 1, 1, 1_709_251_200 + 86_399, 400),
        entry(4, 1, 1, 0, 5),
    ]);
    let ahead = zone(&store, 1);
    let behind = zone(&store, -1);
    let e = Engine::open(store, 1_800_000_000);
    assert_eq!(
        e.get_daily_activity(0, u64::MAX, &vec![]),
        vec![
            DailyActivity { date: "1970-01-01".to_string(), total_seconds: 5 },
            DailyActivity { date: "2024-02-29".to_string(), total_seconds: 300 },
            DailyActivity { date: "2024-03-01".to_string(), total_seconds: 1000 },
        ]
    );
    assert_eq!(
        e.get_daily_activity(1, u64::MAX, &ahead),
        vec![
            DailyActivity { date: "2024-02-29".to_string(), total_seconds: 300 },
            DailyActivity { date: "2024-03-01".to_string(), total_seconds: 600 },
            DailyActivity { date: "2024-03-02".to_string(), total_seconds: 400 },
        ]
    );
    assert_eq!(
        e.get_daily_activity(0, 0, &behind),
        vec![DailyActivity { date: "1969-12-31".to_string(), total_seconds: 5 }]
    );
}

#[test]
fn each_entry_falls_on_the_day_of_its_own_offset() {
    let store = ledger(vec![
        entry(1, 1, 1, DAY - 1800, 600),
        entry(2, 1, 1, 30 * DAY - 1800, 700),
        entry(3, 1, 1, 30 * DAY - 1800, 11),
        entry(4, 1, 1, 60 * DAY - 1800, 800),
    ]);
    let table = vec![
        OffsetAt { at: DAY - 1800, utc_offset_seconds: 3600 },
        OffsetAt { at: 30 * DAY - 1800, utc_offset_seconds: 0 },
        OffsetAt { at: 30 * DAY - 1800, utc_offset_seconds: 7200 },
    ];
    assert_eq!(find_offset(&table, DAY - 1800), 3600);
    assert_eq!(find_offset(&table, 30 * DAY - 1800), 0);
    assert_eq!(find_offset(&table, 5), 0);
    assert_eq!(
        store.query_daily_totals(0, 100 * DAY, &table),
        vec![
            DayTotal { day: 1, total_seconds: 600 },
            DayTotal { day: 29, total_seconds: 711 },
            DayTotal { day: 59, total_seconds: 800 },
        ]
    );
    let e = Engine::open(store, 100 * DAY);
    assert_eq!(
        e.get_daily_activity(0, 100 * DAY, &table),
        vec![
            DailyActivity { date: "1970-01-02".to_string(), total_seconds: 600 },
            DailyActivity { date: "1970-01-30".to_string(), total_seconds: 711 },
            DailyActivity { date: "1970-03-01".to_string(), total_seconds: 800 },
        ]
    );
}

#[test]
fn local_dates_of_known_seconds() {
    assert_eq!(local_date(0, 0), CivilDate { year: 1970, month: 1, day: 1 });
    assert_eq!(local_date(951_782_400, 0), CivilDate { year: 2000, month: 2, day: 29 });
    assert_eq!(local_date(951_868_799, 0), CivilDate { year: 2000, month: 2, day: 29 });
    assert_eq!(local_date(951_868_800, 0), CivilDate { year: 2000, month: 3, day: 1 });
    assert_eq!(local_date(4_107_542_399, 0), CivilDate { year: 2100, month: 2, day: 28 });
    assert_eq!(local_date(4_107_542_400, 0), CivilDate { year: 2100, month: 3, day: 1 });
    assert_eq!(local_date(1_735_689_599, 0), CivilDate { year: 2024, month: 12, day: 31 });
    assert_eq!(local_date(1_735_689_599, 1), CivilDate { year: 2025, month: 1, day: 1 });
    assert_eq!(local_date(1_735_689_600, -1), CivilDate { year: 2024, month: 12, day: 31 });
    assert_eq!(local_date(0, i32::MIN), CivilDate { year: 1901, month: 12, day: 13 });
    assert_eq!(local_date(0, i32::MAX), CivilDate { year: 2038, month: 1, day: 19 });
    assert_eq!(local_date(253_402_300_799, 0), CivilDate { year: 9999, month: 12, day: 31 });
}

#[test]
fn local_day_numbers_round_down() {
    assert_eq!(local_day_number(0, 0), 0);
    assert_eq!(local_day_number(86_399, 0), 0);
    assert_eq!(local_day_number(86_400, 0), 1);
    assert_eq!(local_day_number(0, -1), -1);
    assert_eq!(local_day_number(86_400, -86_401), -1);
    assert_eq!(local_day_number(u64::MAX, i32::MAX), 213_503_982_359_456);
    assert_eq!(date_of_day(19_782), CivilDate { year: 2024, month: 2, day: 29 });
    assert_eq!(date_of_day(-1), CivilDate { year: 1969, month: 12, day: 31 });
    assert_eq!(date_of_day(-146_097), CivilDate { year: 1570, month: 1, day: 1 });
}

#[test]
fn dates_as_text() {
    assert_eq!(date_string(CivilDate { year: 2024, month: 2, day: 29 }), "2024-02-29");
    assert_eq!(date_string(CivilDate { year: 1970, month: 11, day: 5 }), "1970-11-05");
    assert_eq!(date_string(CivilDate { year: 987, month: 1, day: 1 }), "0987-01-01");
    assert_eq!(date_string(CivilDate { year: 0, month: 10, day: 10 }), "0000-10-10");
    assert_eq!(date_string(CivilDate { year: 12_345, month: 12, day: 31 }), "12345-12-31");
    let far = local_date(u64::MAX, 0);
    assert_eq!(date_string(far), format!("{}-{:02}-{:02}", far.year, far.month, far.day));
}

use std::collections::HashMap;

use boat_cli::boat_data::BoatData;
use boat_cli::date::Instant;
use boat_cli::models::{Activity, Id, Log, SimpleActivity};
use boat_cli::period::{PeriodInput, PresetPeriod};
use chrono::{TimeZone, Utc};

fn make_activity(id: Id, name: &str) -> SimpleActivity {
    SimpleActivity { id, name: name.to_string(), description: None, tags: vec![] }
}

fn make_log(id: Id, activity_id: Id, start_h: u32, end_h: Option<u32>) -> Log {
    let base = Utc.with_ymd_and_hms(2024, 4, 15, start_h, 0, 0).unwrap().timestamp();
    Log {
        id,
        activity_id,
        starts_at: base,
        ends_at: end_h.map(|h| Utc.with_ymd_and_hms(2024, 4, 15, h, 0, 0).unwrap().timestamp()),
    }
}

fn boat_data(acts: Vec<(Id, &str)>, logs: Vec<(Id, Vec<Log>)>) -> BoatData {
    let activities: HashMap<Id, SimpleActivity> =
        acts.into_iter().map(|(id, name)| (id, make_activity(id, name))).collect();
    let logs: HashMap<Id, Vec<Log>> = logs.into_iter().collect();
    BoatData { activities, logs }
}

fn data_line_count(csv: &str) -> usize {
    csv.lines().filter(|l| !l.is_empty() && !l.trim_start().starts_with('#')).count()
}

#[test]
fn get_printable_activities_sorted_by_duration_desc() {
    let data = boat_data(
        vec![(1, "short"), (2, "long")],
        vec![(1, vec![make_log(10, 1, 10, Some(11))]), (2, vec![make_log(20, 2, 8, Some(12))])],
    );
    let acts = data.get_printable_activities().unwrap();
    assert_eq!(acts.len(), 2);
    assert!(acts[0].duration > acts[1].duration);
    assert_eq!(acts[0].name, "long");
}

#[test]
fn get_printable_activities_activity_with_no_logs_has_zero_duration() {
    let data = boat_data(vec![(1, "idle")], vec![(1, vec![])]);
    let acts = data.get_printable_activities().unwrap();
    assert_eq!(acts[0].duration, 0);
    assert!(!acts[0].ongoing);
}

#[test]
fn get_printable_activities_at_measures_open_logs() {
    let data = boat_data(vec![(1, "open")], vec![(1, vec![make_log(1, 1, 10, None)])]);
    let now = Instant { secs: Utc.with_ymd_and_hms(2024, 4, 15, 10, 30, 0).unwrap().timestamp(), nanos: 0 };
    let acts = data.get_printable_activities_at(now);
    assert_eq!(acts[0].duration, 1800);
    assert!(acts[0].ongoing);
}

#[test]
fn get_printable_logs_sorted_by_start_asc() {
    let data = boat_data(
        vec![(1, "work")],
        vec![(1, vec![make_log(2, 1, 14, Some(15)), make_log(1, 1, 9, Some(10))])],
    );
    let logs = data.get_printable_logs();
    assert_eq!(logs.len(), 2);
    assert!(logs[0].log.starts_at < logs[1].log.starts_at);
    assert_eq!(logs[0].activity.name, "work");
}

#[test]
fn to_csv_str_contains_log_line() {
    let data = boat_data(vec![(1, "coding")], vec![(1, vec![make_log(1, 1, 10, Some(11))])]);
    let csv = data.to_csv_str(false, false);
    assert_eq!(data_line_count(&csv), 1);
    let data_line = csv.lines().find(|l| !l.trim_start().starts_with('#')).unwrap();
    let fields: Vec<&str> = data_line.split(',').collect();
    assert_eq!(fields.len(), 4, "log line should have 4 comma-separated fields");
    assert_eq!(fields[0], "1");
    assert_eq!(fields[1], "1");
}

#[test]
fn to_csv_str_open_ended_log_has_empty_ends_at() {
    let data = boat_data(vec![(1, "coding")], vec![(1, vec![make_log(1, 1, 10, None)])]);
    let csv = data.to_csv_str(false, false);
    let data_line = csv.lines().find(|l| !l.trim_start().starts_with('#')).unwrap();
    assert!(data_line.ends_with(','), "ends_at should be empty for open-ended log");
}

#[test]
fn to_csv_str_includes_instructions_when_requested() {
    let data = boat_data(vec![(1, "t")], vec![(1, vec![make_log(1, 1, 10, Some(11))])]);
    let with = data.to_csv_str(true, false);
    let without = data.to_csv_str(false, false);
    assert!(with.contains("# This is a CSV export"));
    assert!(!without.contains("# This is a CSV export"));
}

#[test]
fn to_csv_str_includes_activity_definitions_when_requested() {
    let data = boat_data(vec![(1, "t")], vec![(1, vec![make_log(1, 1, 10, Some(11))])]);
    let with = data.to_csv_str(false, true);
    let without = data.to_csv_str(false, false);
    assert!(with.contains("# Activity definitions:"));
    assert!(!without.contains("# Activity definitions:"));
    assert!(with.contains("# | 1 | t |  |  |\n"));
}

#[test]
fn to_csv_str_logs_sorted_chronologically() {
    let data = boat_data(
        vec![(1, "work")],
        vec![(1, vec![make_log(2, 1, 14, Some(15)), make_log(1, 1, 9, Some(10))])],
    );
    let csv = data.to_csv_str(false, false);
    let data_lines: Vec<&str> = csv.lines().filter(|l| !l.trim_start().starts_with('#')).collect();
    assert_eq!(data_lines.len(), 2);
    assert!(data_lines[0].starts_with("1,1,"), "earlier log should appear first");
    assert!(data_lines[1].starts_with("1,2,"), "later log should appear second");
}

#[test]
fn to_csv_str_activity_with_no_logs_is_omitted() {
    let data = boat_data(vec![(1, "idle")], vec![(1, vec![])]);
    let csv = data.to_csv_str(false, false);
    assert_eq!(data_line_count(&csv), 0);
}

#[test]
fn to_csv_str_without_options_is_the_log_section_only() {
    let data = boat_data(vec![(1, "idle")], vec![]);
    assert_eq!(
        data.to_csv_str(false, false),
        "# Logs (activity_id,log_id,starts_at,ends_at):\n# ===== EDIT DATA BELOW =====\n"
    );
}

#[test]
fn create_filtered_data_keeps_all_with_all_time_and_last_activity_wins() {
    let logs = vec![make_log(1, 1, 9, Some(10))];
    let acts = vec![
        Activity { id: 1, name: "first".into(), description: None, tags: vec![], logs: vec![] },
        Activity { id: 1, name: "second".into(), description: None, tags: vec![], logs: logs.clone() },
        Activity { id: 2, name: "other".into(), description: None, tags: vec![], logs: vec![] },
    ];
    let data = BoatData::create_filtered_data(acts, PeriodInput::Preset(PresetPeriod::AllTime)).unwrap();
    assert_eq!(data.activities.len(), 2);
    assert_eq!(data.activities[&1].name, "second");
    assert_eq!(data.logs[&1], logs);
    assert!(data.logs[&2].is_empty());
}

#[test]
fn create_filtered_data_keeps_logs_of_a_date() {
    let acts = vec![Activity {
        id: 1,
        name: "a".into(),
        description: None,
        tags: vec![],
        logs: vec![make_log(1, 1, 9, Some(10)), {
            let mut l = make_log(2, 1, 9, Some(10));
            l.starts_at -= 86400 * 3;
            l.ends_at = Some(l.starts_at + 60);
            l
        }],
    }];
    let period = PeriodInput::from_str("2024-04-15").unwrap();
    let data = BoatData::create_filtered_data(acts, period).unwrap();
    assert_eq!(data.logs[&1].len(), 1);
    assert_eq!(data.logs[&1][0].id, 1);
}

#[test]
fn an_unchanged_export_reads_back_as_the_same_logs() {
    let data = boat_data(
        vec![(1, "work"), (2, "rest")],
        vec![
            (1, vec![make_log(11, 1, 14, Some(15)), make_log(10, 1, 9, Some(10))]),
            (2, vec![make_log(20, 2, 16, None)]),
        ],
    );
    let csv = data.to_csv_str(true, true);
    let logs = boat_cli::edit::convert_modified_content_to_log_lines(&csv).unwrap();
    let mut expected: Vec<Log> = data.logs.values().flatten().cloned().collect();
    expected.sort_by_key(|l| l.starts_at);
    assert_eq!(logs, expected);
}

use boat_cli::date::{pretty_format_duration, Instant};
use boat_cli::models::{
    convert_to_log_line_at, tags_str, Activity, Log, PrintableActivity, PrintableActivityLog,
    PrintableActivityWithLogs, PrintableLog, PrintableTag, RowPrintable, SimpleActivity, Tag,
};
use chrono::{Local, TimeZone, Utc};

fn base() -> i64 {
    Utc.with_ymd_and_hms(2024, 4, 15, 10, 0, 0).unwrap().timestamp()
}

fn simple_act(id: i64) -> SimpleActivity {
    SimpleActivity { id, name: "act".to_owned(), description: None, tags: vec![] }
}

fn closed_log(id: i64, duration_secs: i64) -> Log {
    Log { id, activity_id: 1, starts_at: base(), ends_at: Some(base() + duration_secs) }
}

fn open_log(id: i64) -> Log {
    Log { id, activity_id: 1, starts_at: base(), ends_at: None }
}

#[test]
fn tags_str_renders_comma_separated() {
    let act = PrintableActivity {
        id: 42,
        name: "n".to_owned(),
        description: None,
        duration: 0,
        ongoing: false,
        tags: vec!["foo".to_owned(), "bar".to_owned()],
    };
    let tags_str = tags_str(&act.tags);

    assert!(tags_str.contains("foo"));
    assert!(tags_str.contains("bar"));
    assert!(tags_str.find(',').is_some());
    assert_eq!(tags_str, "bar,foo");
}

#[test]
fn tags_str_of_no_tags_is_empty() {
    assert_eq!(tags_str(&vec![]), "");
    assert_eq!(tags_str(&vec!["b".to_owned(), "a".to_owned(), "c".to_owned()]), "a,b,c");
}

#[test]
fn from_activity_and_logs_empty_logs_zero_duration_not_ongoing() {
    let act = simple_act(1);
    let pa = PrintableActivity::from_activity_and_logs(&act, &[]).unwrap();
    assert_eq!(pa.duration, 0);
    assert!(!pa.ongoing);
}

#[test]
fn from_activity_and_logs_single_closed_log() {
    let act = simple_act(1);
    let pa = PrintableActivity::from_activity_and_logs(&act, &[closed_log(1, 3600)]).unwrap();
    assert_eq!(pa.duration, 3600);
    assert!(!pa.ongoing);
}

#[test]
fn from_activity_and_logs_open_ended_log_is_ongoing() {
    let act = simple_act(1);
    let pa = PrintableActivity::from_activity_and_logs(&act, &[open_log(1)]).unwrap();
    assert!(pa.ongoing);
}

#[test]
fn from_activity_and_logs_multiple_logs_sums_durations() {
    let act = simple_act(1);
    let logs = [closed_log(1, 1800), closed_log(2, 900)];
    let pa = PrintableActivity::from_activity_and_logs(&act, &logs).unwrap();
    assert_eq!(pa.duration, 2700);
    assert!(!pa.ongoing);
}

#[test]
fn from_activity_and_logs_mixed_closed_and_open_is_ongoing() {
    let act = simple_act(1);
    let logs = [closed_log(1, 1800), open_log(2)];
    let pa = PrintableActivity::from_activity_and_logs(&act, &logs).unwrap();
    assert!(pa.ongoing);
}

#[test]
fn from_activity_and_logs_at_measures_open_logs_at_now() {
    let act = simple_act(1);
    let now = Instant { secs: base() + 100, nanos: 0 };
    let pa = PrintableActivity::from_activity_and_logs_at(&act, &[closed_log(1, 60), open_log(2)], now);
    assert_eq!(pa.duration, 160);
}

fn make_activity() -> SimpleActivity {
    SimpleActivity { id: 7, name: "testing".to_string(), description: Some("a desc".to_string()), tags: vec![] }
}

fn make_log(ends_after_secs: Option<i64>) -> Log {
    Log { id: 42, activity_id: 7, starts_at: base(), ends_at: ends_after_secs.map(|s| base() + s) }
}

#[test]
fn row_values_open_log_shows_dash_for_end() {
    let pal = PrintableActivityLog::from_activity_and_log(&make_activity(), &make_log(None));
    assert_eq!(pal.row_values().unwrap()[5], "-");
}

#[test]
fn row_values_closed_log_has_non_empty_end() {
    let pal = PrintableActivityLog::from_activity_and_log(&make_activity(), &make_log(Some(3600)));
    let end_col = &pal.row_values().unwrap()[5];
    assert_ne!(end_col, "-");
    assert!(!end_col.is_empty());
}

#[test]
fn row_values_id_and_name_match_activity() {
    let pal = PrintableActivityLog::from_activity_and_log(&make_activity(), &make_log(Some(3600)));
    let values = pal.row_values().unwrap();
    assert_eq!(values[0], "7");
    assert_eq!(values[1], "testing");
}

#[test]
fn style_cell_closed_log_returns_value_unchanged() {
    let pal = PrintableActivityLog::from_activity_and_log(&make_activity(), &make_log(Some(3600)));
    let val = "unchanged".to_string();
    assert_eq!(pal.style_cell(val.clone()), val);
}

#[test]
fn style_cell_open_log_result_contains_original_value() {
    let pal = PrintableActivityLog::from_activity_and_log(&make_activity(), &make_log(None));
    let val = "styled".to_string();
    assert!(pal.style_cell(val.clone()).contains(&val));
}

#[test]
fn test_duration_sec() {
    let now = Local::now().timestamp();
    let log = PrintableLog { starts_at: now, ends_at: Some(now + 60) };
    assert_eq!(log.duration_sec().unwrap(), 60);

    let log = PrintableLog { starts_at: now, ends_at: None };
    assert!(log.duration_sec().unwrap() >= 0);
}

#[test]
fn parse_from_tag_works() {
    let db_tag = Tag { id: 1, name: "foo".to_string() };
    let tag = PrintableTag::from_tag(&db_tag);
    assert_eq!(tag.id, 1);
    assert_eq!(tag.name, "foo");
}

#[test]
fn tag_rows_show_id_and_name() {
    let tag = PrintableTag { id: 3, name: "work".to_string() };
    assert_eq!(tag.row_values().unwrap(), vec!["3".to_string(), "work".to_string()]);
    assert_eq!(PrintableTag::field_specs(), vec![("id", "ID", '>'), ("name", "Name", '<')]);
}

#[test]
fn activity_rows_show_duration_and_tags() {
    let pa = PrintableActivity {
        id: 5,
        name: "write".to_owned(),
        description: None,
        duration: 3661,
        ongoing: false,
        tags: vec!["b".to_owned(), "a".to_owned()],
    };
    let values = pa.row_values().unwrap();
    assert_eq!(values[0], "5");
    assert_eq!(values[1], "write");
    assert!(values.contains(&pretty_format_duration(3661, false)));
    assert!(values.contains(&"a,b".to_string()));
}

#[test]
fn log_line_cells() {
    let act = Activity {
        id: 9,
        name: "read".to_owned(),
        description: Some("books".to_owned()),
        tags: vec!["x".to_owned(), "y".to_owned()],
        logs: vec![Log { id: 1, activity_id: 9, starts_at: base(), ends_at: None }],
    };
    let with_logs = PrintableActivityWithLogs::from_activity(&act);
    assert!(with_logs.ongoing);
    assert_eq!(with_logs.tags_str(), "x,y");
    let now = Instant { secs: base() + 3660, nanos: 0 };
    let cells = convert_to_log_line_at(&with_logs.logs[0], &with_logs, now);
    assert_eq!(cells.len(), 7);
    assert_eq!(cells[0], "9");
    assert_eq!(cells[1], "read");
    assert_eq!(cells[2], "books");
    assert_eq!(cells[3], "x,y");
    assert_eq!(cells[5], "-");
    assert_eq!(cells[6], "1h 1m");
}

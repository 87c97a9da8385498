use boat_cli::commands::{planned_updates, pretty_print_edit_diffs, LogUpdate};
use boat_cli::edit::{
    convert_modified_content_to_log_lines, date_time_opt_loose_eq, try_generate_edit_diffs,
    try_generate_edit_diffs_at, CsvError, DiffError, EditLogDiff,
};
use boat_cli::models::Log;
use chrono::{TimeZone, Utc};

fn ts(y: i32, mo: u32, d: u32, h: u32, mi: u32, s: u32) -> i64 {
    Utc.with_ymd_and_hms(y, mo, d, h, mi, s).unwrap().timestamp()
}

fn make_log(id: i64, activity_id: i64, starts_at: i64, ends_at: Option<i64>) -> Log {
    Log { id, activity_id, starts_at, ends_at }
}

#[test]
fn test_convert_modified_content_to_log_lines() {
    let csv = "\
1, 10, 2024-06-01 10:00, 2024-06-01 11:00
2, 20, 2024-06-02 12:00,
";
    let logs = convert_modified_content_to_log_lines(csv).unwrap();

    assert_eq!(logs.len(), 2);
    assert_eq!(logs[0].id, 10);
    assert_eq!(logs[0].activity_id, 1);
    assert!(logs[0].ends_at.is_some());

    assert_eq!(logs[1].id, 20);
    assert!(logs[1].ends_at.is_none());
}

#[test]
fn test_try_generate_edit_diffs_detects_changes() {
    let orig = vec![make_log(1, 100, ts(2024, 6, 1, 10, 0, 0), Some(ts(2024, 6, 1, 11, 0, 0)))];
    let edited = vec![make_log(1, 100, ts(2024, 6, 1, 10, 5, 0), Some(ts(2024, 6, 1, 11, 0, 0)))];

    let diffs = try_generate_edit_diffs(&edited, &orig).unwrap();
    assert_eq!(diffs.len(), 1);
    assert_eq!(diffs[0].log_id, 1);
    assert_eq!(diffs[0].starts_at_new, Some(edited[0].starts_at));
    assert!(diffs[0].ends_at_new.is_none());
}

#[test]
fn test_date_time_opt_loose_eq_ignores_seconds() {
    let dt1 = Some(ts(2024, 6, 1, 10, 0, 30));
    let dt2 = Some(ts(2024, 6, 1, 10, 0, 0));
    assert!(date_time_opt_loose_eq(&dt1, &dt2).unwrap());
}

#[test]
fn date_time_opt_loose_eq_tells_minutes_and_open_ends_apart() {
    let a = Some(ts(2024, 6, 1, 10, 1, 0));
    let b = Some(ts(2024, 6, 1, 10, 0, 59));
    assert!(!date_time_opt_loose_eq(&a, &b).unwrap());
    assert!(date_time_opt_loose_eq(&None, &None).unwrap());
    assert!(!date_time_opt_loose_eq(&a, &None).unwrap());
}

#[test]
fn test_convert_modified_content_to_log_lines_invalid() {
    let csv = "1, 10, not-a-date, 2024-06-01 11:00";
    assert!(convert_modified_content_to_log_lines(csv).is_err());
}

#[test]
fn convert_skips_comments_and_blank_lines() {
    let csv = "# a comment\n\n   # indented comment\n3,30,2024-06-01 10:00,\n";
    let logs = convert_modified_content_to_log_lines(csv).unwrap();
    assert_eq!(logs.len(), 1);
    assert_eq!(logs[0].activity_id, 3);
    assert_eq!(logs[0].id, 30);
}

#[test]
fn convert_reports_each_kind_of_bad_line() {
    match convert_modified_content_to_log_lines("1,2,3") {
        Err(CsvError::ColumnCount { count, .. }) => assert_eq!(count, 3),
        other => panic!("unexpected {:?}", other),
    }
    assert!(matches!(
        convert_modified_content_to_log_lines("x,2,2024-06-01 10:00,"),
        Err(CsvError::ActivityId { .. })
    ));
    assert!(matches!(
        convert_modified_content_to_log_lines("1,y,2024-06-01 10:00,"),
        Err(CsvError::LogId { .. })
    ));
    assert!(matches!(
        convert_modified_content_to_log_lines("1,2,2024-06-01 10:00,later"),
        Err(CsvError::EndsAt { .. })
    ));
    let e = convert_modified_content_to_log_lines("1,2,3").unwrap_err();
    assert_eq!(e.message(), "expected 4 columns in the CSV, but got 3: 1,2,3");
}

#[test]
fn diffs_refuse_a_changed_log_count() {
    let orig = vec![make_log(1, 100, ts(2024, 6, 1, 10, 0, 0), Some(ts(2024, 6, 1, 11, 0, 0)))];
    let edited: Vec<Log> = vec![];
    assert!(matches!(try_generate_edit_diffs(&edited, &orig), Err(DiffError::LogCountChanged { .. })));
}

#[test]
fn diffs_refuse_an_unknown_log() {
    let orig = vec![make_log(1, 100, ts(2024, 6, 1, 10, 0, 0), Some(ts(2024, 6, 1, 11, 0, 0)))];
    let edited = vec![make_log(2, 100, ts(2024, 6, 1, 10, 0, 0), Some(ts(2024, 6, 1, 11, 0, 0)))];
    assert!(matches!(try_generate_edit_diffs(&edited, &orig), Err(DiffError::UnknownLog { .. })));
}

#[test]
fn diffs_refuse_a_start_after_the_end() {
    let now = ts(2024, 7, 1, 0, 0, 0);
    let orig = vec![make_log(1, 100, ts(2024, 6, 1, 10, 0, 0), Some(ts(2024, 6, 1, 11, 0, 0)))];
    let edited = vec![make_log(1, 100, ts(2024, 6, 1, 12, 0, 0), Some(ts(2024, 6, 1, 11, 0, 0)))];
    assert!(matches!(try_generate_edit_diffs_at(&edited, &orig, now), Err(DiffError::StartAfterEnd { .. })));
}

#[test]
fn unchanged_logs_give_no_diff() {
    let now = ts(2024, 7, 1, 0, 0, 0);
    let orig = vec![make_log(1, 100, ts(2024, 6, 1, 10, 0, 0), Some(ts(2024, 6, 1, 11, 0, 0)))];
    let edited = vec![make_log(1, 100, ts(2024, 6, 1, 10, 0, 40), Some(ts(2024, 6, 1, 11, 0, 0)))];
    assert!(try_generate_edit_diffs_at(&edited, &orig, now).unwrap().is_empty());
}

#[test]
fn planned_updates_follow_the_diffs() {
    let diffs = vec![
        EditLogDiff {
            log_id: 1,
            starts_at_current: 100,
            starts_at_new: Some(160),
            ends_at_current: Some(200),
            ends_at_new: Some(None),
        },
        EditLogDiff {
            log_id: 2,
            starts_at_current: 300,
            starts_at_new: None,
            ends_at_current: None,
            ends_at_new: Some(Some(400)),
        },
    ];
    let ups = planned_updates(&diffs);
    assert_eq!(
        ups,
        vec![LogUpdate::Start(1, 160), LogUpdate::End(1, None), LogUpdate::End(2, Some(400))]
    );
}

#[test]
fn edit_diffs_are_written_like_chrono() {
    let diffs = vec![EditLogDiff {
        log_id: 7,
        starts_at_current: ts(2024, 6, 1, 10, 0, 0),
        starts_at_new: Some(ts(2024, 6, 1, 10, 5, 0)),
        ends_at_current: Some(ts(2024, 6, 1, 11, 0, 0)),
        ends_at_new: None,
    }];
    let text = pretty_print_edit_diffs(&diffs);
    let start = Utc.timestamp_opt(ts(2024, 6, 1, 10, 0, 0), 0).unwrap();
    let new_start = Utc.timestamp_opt(ts(2024, 6, 1, 10, 5, 0), 0).unwrap();
    let end = Some(Utc.timestamp_opt(ts(2024, 6, 1, 11, 0, 0), 0).unwrap());
    let expected = format!(
        "Detected changes:\nLog ID 7: starts_at: {} -> {}, ends_at: {:?} (no change)\n",
        start, new_start, end
    );
    assert_eq!(text, expected);
}

#[test]
fn refused_edits_have_messages() {
    assert_eq!(
        DiffError::LogCountChanged { original: 2, edited: 3 }.message(),
        "number of log entries has changed: original had 2, but edited has 3"
    );
    assert_eq!(
        DiffError::SeveralOpenEnded.message(),
        "more than one log entry is open-ended (missing ends_at), which is not allowed"
    );
    assert_eq!(DiffError::UnknownLog { log_id: 7 }.message(), "Log with ID 7 does not exist in the original data");
    assert_eq!(
        DiffError::ActivityChanged { log_id: 7, edited_activity_id: 2, original_activity_id: 1 }.message(),
        "Log with ID 7 has a different activity_id (2) than the original (1)"
    );
    assert_eq!(
        DiffError::StartAfterEnd { log_id: 7, starts_at: 1713175200, ends_at: Some(1713171600) }.message(),
        "Log with ID 7 has starts_at (2024-04-15 10:00:00 UTC) after ends_at (2024-04-15 09:00:00 UTC)"
    );
}

#[test]
fn a_moved_start_gives_one_diff_without_the_clock() {
    let orig = vec![make_log(1, 100, ts(2024, 6, 1, 10, 0, 0), Some(ts(2024, 6, 1, 11, 0, 0)))];
    let edited = vec![make_log(1, 100, ts(2024, 6, 1, 10, 5, 0), Some(ts(2024, 6, 1, 11, 0, 0)))];
    let d = try_generate_edit_diffs(&edited, &orig).unwrap();
    assert_eq!(d.len(), 1);
    assert_eq!(d[0].log_id, 1);
    assert_eq!(d[0].starts_at_new, Some(edited[0].starts_at));
    assert!(d[0].ends_at_new.is_none());
    assert_eq!(d[0].starts_at_current, orig[0].starts_at);
}

#[test]
fn several_open_logs_are_refused() {
    let orig = vec![
        make_log(1, 100, ts(2024, 6, 1, 10, 0, 0), Some(ts(2024, 6, 1, 11, 0, 0))),
        make_log(2, 100, ts(2024, 6, 1, 12, 0, 0), Some(ts(2024, 6, 1, 13, 0, 0))),
    ];
    let edited = vec![make_log(1, 100, ts(2024, 6, 1, 10, 0, 0), None), make_log(2, 100, ts(2024, 6, 1, 12, 0, 0), None)];
    assert_eq!(try_generate_edit_diffs(&edited, &orig), Err(DiffError::SeveralOpenEnded));
}

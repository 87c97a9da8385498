use boat_cli::date::{
    format_duration, parse_date, pretty_format_duration, Date, DateTimeFields, DateTimeRenderMode,
};
use boat_cli::filter::{
    is_last_month, is_last_week, is_this_month, is_this_week, is_today, is_yesterday,
};
use chrono::{Duration, Local, Months};

fn date(year: i32, month: u32, day: u32) -> Date {
    Date { year, month, day }
}

fn fields(year: i32, month: u32, day: u32, hour: u32, minute: u32) -> DateTimeFields {
    DateTimeFields { date: date(year, month, day), hour, minute, second: 0 }
}

#[test]
fn test_pretty_format_duration() {
    assert_eq!(&pretty_format_duration(0, false), "0s");
    assert_eq!(&pretty_format_duration(42, false), "42s");
    assert_eq!(&pretty_format_duration(60, false), "1m");
    assert_eq!(&pretty_format_duration(61, false), "1m");
    assert_eq!(&pretty_format_duration(3600, false), "1h");
    assert_eq!(&pretty_format_duration(3601, false), "1h");
    assert_eq!(&pretty_format_duration(3661, false), "1h 1m");
}

#[test]
fn pretty_format_duration_long_format_seconds() {
    assert_eq!(pretty_format_duration(0, true), "0 seconds");
    assert_eq!(pretty_format_duration(45, true), "45 seconds");
}

#[test]
fn pretty_format_duration_long_format_minutes() {
    assert_eq!(pretty_format_duration(60, true), "1 minutes");
    assert_eq!(pretty_format_duration(90, true), "1 minutes");
}

#[test]
fn pretty_format_duration_long_format_hours_and_minutes() {
    assert_eq!(pretty_format_duration(3661, true), "1 hours 1 minutes");
}

#[test]
fn pretty_format_duration_negative_is_seconds() {
    assert_eq!(pretty_format_duration(-5, false), "-5s");
    assert_eq!(pretty_format_duration(7322, false), "2h 2m");
}

#[test]
fn format_duration_compact_forms() {
    assert_eq!(format_duration(0), "0s");
    assert_eq!(format_duration(59), "59s");
    assert_eq!(format_duration(60), "1m");
    assert_eq!(format_duration(3599), "59m");
    assert_eq!(format_duration(3600), "1h 0m");
    assert_eq!(format_duration(3661), "1h 1m");
    assert_eq!(format_duration(-30), "-30s");
}

#[test]
fn parse_date_valid_should_succeed() {
    assert_eq!(parse_date("2023-08-14").unwrap(), date(2023, 8, 14));
}

#[test]
fn parse_date_fails_invalid_should_fail() {
    let e = parse_date("nope").unwrap_err();
    assert!(e.contains("invalid date"));
    assert_eq!(e, "invalid date 'nope', expected format YYYY-MM-DD");
}

#[test]
fn parse_date_rejects_impossible_day() {
    assert!(parse_date("2023-02-30").is_err());
}

#[test]
fn render_naive_date_date_only() {
    let d = date(2024, 4, 15);
    assert_eq!(DateTimeRenderMode::DateOnly.render_naive_date(&d), "2024-04-15");
}

#[test]
fn render_date_time_date_only() {
    let dt = fields(2024, 4, 15, 13, 30);
    assert_eq!(DateTimeRenderMode::DateOnly.render_date_time(&dt), "2024-04-15");
}

#[test]
fn render_date_time_time_only() {
    let dt = fields(2024, 4, 15, 13, 30);
    assert_eq!(DateTimeRenderMode::TimeOnly.render_date_time(&dt), "13:30");
}

#[test]
fn render_date_time_date_and_time() {
    let dt = fields(2024, 4, 15, 13, 30);
    assert_eq!(DateTimeRenderMode::DateAndTime.render_date_time(&dt), "2024-04-15 13:30");
}

#[test]
fn render_date_time_pads_small_years() {
    let dt = fields(7, 1, 2, 3, 4);
    assert_eq!(DateTimeRenderMode::DateAndTime.render_date_time(&dt), "0007-01-02 03:04");
}

fn now_ts() -> i64 {
    Local::now().timestamp()
}

#[test]
fn is_today_with_now() {
    assert!(is_today(now_ts()).unwrap());
}

#[test]
fn is_today_with_yesterday() {
    assert!(!is_today((Local::now() - Duration::days(1)).timestamp()).unwrap());
}

#[test]
fn is_yesterday_with_one_day_ago() {
    assert!(is_yesterday((Local::now() - Duration::days(1)).timestamp()).unwrap());
}

#[test]
fn is_yesterday_with_today() {
    assert!(!is_yesterday(now_ts()).unwrap());
}

#[test]
fn is_yesterday_with_two_days_ago() {
    assert!(!is_yesterday((Local::now() - Duration::days(2)).timestamp()).unwrap());
}

#[test]
fn is_this_week_with_now() {
    assert!(is_this_week(now_ts()).unwrap());
}

#[test]
fn is_this_week_with_seven_days_ago() {
    assert!(!is_this_week((Local::now() - Duration::days(7)).timestamp()).unwrap());
}

#[test]
fn is_last_week_with_seven_days_ago() {
    assert!(is_last_week((Local::now() - Duration::days(7)).timestamp()).unwrap());
}

#[test]
fn is_last_week_with_now() {
    assert!(!is_last_week(now_ts()).unwrap());
}

#[test]
fn is_last_week_with_fourteen_days_ago() {
    assert!(!is_last_week((Local::now() - Duration::days(14)).timestamp()).unwrap());
}

#[test]
fn is_this_month_with_now() {
    assert!(is_this_month(now_ts()).unwrap());
}

#[test]
fn is_this_month_with_forty_days_ago() {
    assert!(!is_this_month((Local::now() - Duration::days(40)).timestamp()).unwrap());
}

#[test]
fn is_last_month_with_last_month() {
    assert!(is_last_month((Local::now() - Months::new(1)).timestamp()).unwrap());
}

#[test]
fn is_last_month_with_now() {
    assert!(!is_last_month(now_ts()).unwrap());
}

#[test]
fn is_last_month_with_two_months_ago() {
    assert!(!is_last_month((Local::now() - Months::new(2)).timestamp()).unwrap());
}

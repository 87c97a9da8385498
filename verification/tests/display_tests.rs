use boat_cli::cli::GroupBy;
use boat_cli::date::{Date, DateTimeFields, Instant};
use boat_cli::display::{
    activity_id_does_not_exist, already_ongoing_msg, cancelled_activity_msg, created_activity_msg, current_activity_msg_at,
    date_info_msg_for_days, deleted_activity_msg, format_ascii_ribbon, get_date_info_msg,
    get_group_by_display_values, group_display_values, invalid_activity_id_format, invalid_activity_name,
    modified_activity_msg, no_current_act_msg, ongoing_log, paused_activity_msg, started_activity_msg,
};
use boat_cli::models::{Activity, Log};
use chrono::{TimeZone, Utc};

/// The text without ANSI style sequences.
fn plain(s: &str) -> String {
    let mut out = String::new();
    let mut chars = s.chars().peekable();
    while let Some(c) = chars.next() {
        if c == '\u{1b}' {
            for d in chars.by_ref() {
                if d == 'm' {
                    break;
                }
            }
        } else {
            out.push(c);
        }
    }
    out
}

fn activity() -> Activity {
    Activity { id: 51, name: "take down prod".to_owned(), description: None, tags: vec![], logs: vec![] }
}

fn at(hour: u32, minute: u32) -> DateTimeFields {
    DateTimeFields { date: Date { year: 2024, month: 4, day: 15 }, hour, minute, second: 0 }
}

#[test]
fn format_ascii_ribbon_frames_the_text() {
    let r = plain(&format_ascii_ribbon("abc", None));
    assert_eq!(r, "    *-----*\n====| abc |==================================>\n    *-----*\n");
    let r = plain(&format_ascii_ribbon("2024-04-15", Some("Today")));
    assert_eq!(
        r,
        "    *------------*\n====| 2024-04-15 |=========( Today )====================>\n    *------------*\n"
    );
}

#[test]
fn format_ascii_ribbon_counts_bytes() {
    let r = plain(&format_ascii_ribbon("é", None));
    assert!(r.starts_with("    *----*\n"));
}

#[test]
fn activity_messages() {
    let a = activity();
    assert_eq!(plain(&created_activity_msg(&a)), "created new #51 \"take down prod\"");
    assert_eq!(plain(&started_activity_msg(&a, &at(20, 42))), "started #51 \"take down prod\" at 20:42");
    assert_eq!(
        plain(&paused_activity_msg(&a, &at(20, 55)).unwrap()),
        "paused #51 \"take down prod\" at 20:55"
    );
    assert_eq!(plain(&deleted_activity_msg(&a)), "deleted #51 \"take down prod\"");
    assert_eq!(plain(&modified_activity_msg(&a)), "modified #51 \"take down prod\"");
    assert_eq!(plain(&cancelled_activity_msg(&a)), "cancelled #51 \"take down prod\"");
    assert_eq!(no_current_act_msg(), "no current activity");
}

#[test]
fn error_messages() {
    assert_eq!(plain(&activity_id_does_not_exist(99)), "#99 does not exist");
    assert_eq!(plain(&invalid_activity_id_format("abc")), "invalid activity ID format: \"abc\"");
    assert_eq!(
        plain(&invalid_activity_name("123")),
        "the activity name cannot only contain digits: \"123\""
    );
}

#[test]
fn date_info_messages() {
    assert_eq!(date_info_msg_for_days(0), "Today");
    assert_eq!(date_info_msg_for_days(1), "Yesterday");
    assert_eq!(date_info_msg_for_days(5), "5 days ago");
    assert_eq!(date_info_msg_for_days(7), "7 days ago");
    assert_eq!(date_info_msg_for_days(8), "1 week ago");
    assert_eq!(date_info_msg_for_days(20), "2 weeks ago");
    assert_eq!(date_info_msg_for_days(34), "4 weeks ago");
    assert_eq!(date_info_msg_for_days(35), "Last month");
    assert_eq!(date_info_msg_for_days(70), "2 months ago");
    assert_eq!(date_info_msg_for_days(-3), "-3 days ago");
}

#[test]
fn date_info_between_dates() {
    let today = Date { year: 2024, month: 3, day: 1 };
    assert_eq!(get_date_info_msg(&today, &Date { year: 2024, month: 2, day: 29 }), "Yesterday");
    assert_eq!(get_date_info_msg(&today, &Date { year: 2024, month: 2, day: 28 }), "2 days ago");
    assert_eq!(get_date_info_msg(&today, &today), "Today");
}

#[test]
fn group_headings() {
    let (t, tt) = get_group_by_display_values(GroupBy::Ungrouped, "all").unwrap().unwrap();
    assert_eq!((t.as_str(), tt), ("ALL", None));
    let (t, tt) = get_group_by_display_values(GroupBy::Year, "2024").unwrap().unwrap();
    assert_eq!((t.as_str(), tt), ("2024", None));
    let (t, tt) = get_group_by_display_values(GroupBy::Month, "2024-04").unwrap().unwrap();
    assert_eq!((t.as_str(), tt), ("April 2024", None));
    let (t, tt) = get_group_by_display_values(GroupBy::Week, "2024-W15").unwrap().unwrap();
    assert_eq!(t, "Week 15");
    assert_eq!(tt.unwrap(), "Apr 08, 2024 - Apr 14, 2024");
    let (t, tt) = get_group_by_display_values(GroupBy::Day, "2024-04-15").unwrap().unwrap();
    assert_eq!(t, "2024-04-15");
    assert!(tt.is_some());
    assert!(get_group_by_display_values(GroupBy::Day, "garbage").unwrap().is_err());
    assert!(get_group_by_display_values(GroupBy::Month, "2024-13").unwrap().is_err());
}

#[test]
fn group_heading_of_a_week_whose_sunday_falls_out_of_the_year() {
    assert!(group_display_values(GroupBy::Week, "2024-W53").is_none());
    assert!(group_display_values(GroupBy::Week, "2024-W15").unwrap().unwrap().is_ok());
    assert!(group_display_values(GroupBy::Week, "nonsense").unwrap().unwrap().is_err());
}

#[test]
fn current_activity_message() {
    let start = Utc.with_ymd_and_hms(2024, 4, 15, 10, 0, 0).unwrap().timestamp();
    let mut a = activity();
    a.description = Some("oops".to_owned());
    a.tags = vec!["work".to_owned(), "ops".to_owned()];
    a.logs = vec![
        Log { id: 1, activity_id: 51, starts_at: start - 7200, ends_at: Some(start - 3600) },
        Log { id: 2, activity_id: 51, starts_at: start, ends_at: None },
    ];
    let now = Instant { secs: start + 3660, nanos: 5 };
    let msg = plain(&current_activity_msg_at(&a, now).unwrap());
    assert!(msg.starts_with("current: #51 \"take down prod\" (oops) [ops,work]: "));
    assert!(msg.ends_with(" -> Now (1 hours 1 minutes)"));
    a.logs.pop();
    assert_eq!(current_activity_msg_at(&a, now).unwrap_err(), "there should be an ongoing log");
}

#[test]
fn styles_are_written_as_ansi_sequences() {
    assert_eq!(
        invalid_activity_name("1"),
        "\u{1b}[31mthe activity name cannot only contain digits: \"1\"\u{1b}[0m"
    );
    let a = activity();
    assert_eq!(created_activity_msg(&a), "\u{1b}[36mcreated\u{1b}[0m new #51 \"take down prod\"");
    assert_eq!(modified_activity_msg(&a), "\u{1b}[33mmodified\u{1b}[0m #51 \"take down prod\"");
    assert_eq!(cancelled_activity_msg(&a), "\u{1b}[97mcancelled\u{1b}[0m #51 \"take down prod\"");
    assert_eq!(
        started_activity_msg(&a, &at(8, 5)),
        "\u{1b}[32mstarted\u{1b}[0m #51 \"take down prod\" at 08:05"
    );
    assert_eq!(
        paused_activity_msg(&a, &at(8, 5)).unwrap(),
        "\u{1b}[94mpaused\u{1b}[0m #51 \"take down prod\" at 08:05"
    );
    let ribbon = format_ascii_ribbon("ab", None);
    assert!(ribbon.contains("\u{1b}[1;36mab\u{1b}[0m"));
    assert!(ribbon.starts_with("\u{1b}[34m    *----*\n\u{1b}[0m"));
}

#[test]
fn already_ongoing_message_is_italic() {
    assert_eq!(already_ongoing_msg(), "\u{1b}[3mactivity already ongoing...\u{1b}[0m");
}

#[test]
fn ongoing_log_is_the_first_open_one() {
    let mut a = activity();
    assert_eq!(ongoing_log(&a), None);
    a.logs = vec![
        Log { id: 1, activity_id: 51, starts_at: 10, ends_at: Some(20) },
        Log { id: 2, activity_id: 51, starts_at: 30, ends_at: None },
        Log { id: 3, activity_id: 51, starts_at: 40, ends_at: None },
    ];
    assert_eq!(ongoing_log(&a).map(|l| l.id), Some(2));
}

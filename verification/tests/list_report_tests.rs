use boat_cli::cli::GroupBy;
use boat_cli::date::Instant;
use boat_cli::list::{filter_rows_by_tags, group_by_at, group_by_day};
use boat_cli::models::{PrintableActivity, PrintableActivityLog, PrintableLog, PrintableTag, SimpleActivity};
use boat_cli::report::{filter_summaries, sort_tags_by_id_desc, total_line, total_seconds};
use chrono::{Local, TimeZone};

fn row(id: i64, name: &str, starts_at: i64, ends_at: Option<i64>) -> PrintableActivityLog {
    PrintableActivityLog {
        log: PrintableLog { starts_at, ends_at },
        activity: SimpleActivity { id, name: name.to_owned(), description: None, tags: vec![] },
    }
}

fn local(y: i32, m: u32, d: u32, h: u32) -> i64 {
    Local.with_ymd_and_hms(y, m, d, h, 0, 0).unwrap().timestamp()
}

#[test]
fn ungrouped_listing_is_one_group() {
    let rows = vec![row(1, "a", local(2024, 4, 15, 9), Some(local(2024, 4, 15, 10)))];
    let now = Instant { secs: local(2024, 5, 1, 0), nanos: 0 };
    let g = group_by_at(&rows, GroupBy::Ungrouped, now);
    assert_eq!(g.len(), 1);
    assert_eq!(g[0].0, "all");
    assert_eq!(g[0].1.len(), 1);
    let empty: Vec<PrintableActivityLog> = vec![];
    let g = group_by_at(&empty, GroupBy::Ungrouped, now);
    assert_eq!(g.len(), 1);
    assert!(g[0].1.is_empty());
}

#[test]
fn grouping_by_day_orders_keys_and_keeps_row_order() {
    let rows = vec![
        row(1, "a", local(2024, 4, 16, 9), Some(local(2024, 4, 16, 10))),
        row(2, "b", local(2024, 4, 15, 9), Some(local(2024, 4, 15, 10))),
        row(3, "c", local(2024, 4, 16, 11), Some(local(2024, 4, 16, 12))),
    ];
    let g = group_by_day(&rows).unwrap();
    assert_eq!(g.len(), 2);
    assert_eq!(g[0].0, "2024-04-15");
    assert_eq!(g[1].0, "2024-04-16");
    assert_eq!(g[1].1.len(), 2);
    assert_eq!(g[1].1[0].activity.name, "a");
    assert_eq!(g[1].1[1].activity.name, "c");
}

#[test]
fn grouping_keys_by_week_month_year_and_open_logs() {
    let now = Instant { secs: local(2024, 5, 1, 12), nanos: 0 };
    let rows = vec![
        row(1, "a", local(2024, 4, 15, 9), Some(local(2024, 4, 15, 10))),
        row(2, "b", local(2024, 4, 30, 9), None),
    ];
    let w = group_by_at(&rows, GroupBy::Week, now);
    let keys: Vec<&str> = w.iter().map(|(k, _)| k.as_str()).collect();
    assert_eq!(keys, vec!["2024-W16", "2024-W18"]);
    let m = group_by_at(&rows, GroupBy::Month, now);
    let keys: Vec<&str> = m.iter().map(|(k, _)| k.as_str()).collect();
    assert_eq!(keys, vec!["2024-04", "2024-05"]);
    let y = group_by_at(&rows, GroupBy::Year, now);
    assert_eq!(y.len(), 1);
    assert_eq!(y[0].0, "2024");
    assert_eq!(y[0].1.len(), 2);
}

fn summary(id: i64, duration: i64, tags: &[&str]) -> PrintableActivity {
    PrintableActivity {
        id,
        name: format!("a{id}"),
        description: None,
        duration,
        ongoing: false,
        tags: tags.iter().map(|t| t.to_string()).collect(),
    }
}

#[test]
fn summaries_keep_spent_time_and_all_wanted_tags() {
    let acts = vec![summary(1, 0, &["x"]), summary(2, 10, &["x", "y"]), summary(3, 20, &["y"])];
    let all = filter_summaries(&acts, &None);
    assert_eq!(all.iter().map(|a| a.id).collect::<Vec<_>>(), vec![2, 3]);
    let tagged = filter_summaries(&acts, &Some(vec!["x".to_owned(), "y".to_owned()]));
    assert_eq!(tagged.iter().map(|a| a.id).collect::<Vec<_>>(), vec![2]);
    let none = filter_summaries(&acts, &Some(vec!["nope".to_owned()]));
    assert!(none.is_empty());
    assert_eq!(total_seconds(&all), 30);
}

#[test]
fn total_line_shows_short_duration() {
    let line = total_line(3661);
    assert!(line.contains("Total:"));
    assert!(line.contains("1h 1m"));
}

#[test]
fn tags_are_listed_by_id_descending() {
    let tags = vec![
        PrintableTag { id: 1, name: "a".into() },
        PrintableTag { id: 3, name: "c".into() },
        PrintableTag { id: 2, name: "b".into() },
    ];
    let sorted = sort_tags_by_id_desc(&tags);
    assert_eq!(sorted.iter().map(|t| t.id).collect::<Vec<_>>(), vec![3, 2, 1]);
    assert_eq!(sorted[0].name, "c");
}

#[test]
fn total_line_is_styled() {
    assert_eq!(total_line(60), "\u{1b}[4mTotal:\u{1b}[0m \u{1b}[32m1m\u{1b}[0m");
}

#[test]
fn listed_rows_have_all_wanted_tags() {
    let mut a = row(1, "full", 0, Some(60));
    a.activity.tags = vec!["backend".to_string(), "rust".to_string()];
    let mut b = row(2, "partial", 0, Some(60));
    b.activity.tags = vec!["rust".to_string()];
    let rows = vec![a, b];
    let wanted = Some(vec!["rust".to_string(), "backend".to_string()]);
    let kept = filter_rows_by_tags(&rows, &wanted);
    assert_eq!(kept.len(), 1);
    assert_eq!(kept[0].activity.name, "full");
    assert!(filter_rows_by_tags(&rows, &Some(vec!["nonexistent".to_string()])).is_empty());
    assert_eq!(filter_rows_by_tags(&rows, &None).len(), 2);
}

#[test]
fn grouping_nothing_gives_no_group() {
    let rows: Vec<PrintableActivityLog> = vec![];
    assert!(group_by_day(&rows).unwrap().is_empty());
    assert!(boat_cli::list::group_by(&rows, GroupBy::Week).unwrap().is_empty());
    assert_eq!(boat_cli::list::group_by(&rows, GroupBy::Ungrouped).unwrap().len(), 1);
}

use boat_cli::date::Date;
use boat_cli::period::{DateInput, Period, PeriodInput, PresetPeriod};

#[test]
fn periodinput_toml_serializes_and_deserializes_as_string_forms() {
    let cases = [
        ("today", PeriodInput::from_str("today").unwrap()),
        ("last-week", PeriodInput::from_str("last-week").unwrap()),
        ("2023-01-02", PeriodInput::from_str("2023-01-02").unwrap()),
        (
            "2023-01-02..2023-01-06",
            PeriodInput::from_str("2023-01-02..2023-01-06").unwrap(),
        ),
        (
            "2023-01-02..=2023-01-07",
            PeriodInput::from_str("2023-01-02..=2023-01-07").unwrap(),
        ),
    ];
    for (s, val) in cases {
        assert_eq!(val.to_string(), s);
        let round = PeriodInput::from_str(&val.to_string()).unwrap();
        assert_eq!(round.to_string(), s);
        assert_eq!(round, val);
    }
}

#[test]
fn periodinput_toml_deserialize_invalid() {
    let err = PeriodInput::from_str("not-a-real-period");
    assert!(err.is_err());
}

#[test]
fn periodinput_aliases_and_case() {
    assert_eq!(PeriodInput::from_str("LW").unwrap(), PeriodInput::Preset(PresetPeriod::LastWeek));
    assert_eq!(PeriodInput::from_str("all").unwrap(), PeriodInput::Preset(PresetPeriod::AllTime));
    assert_eq!(
        PeriodInput::from_str("2024-05-01").unwrap(),
        PeriodInput::Single(Date { year: 2024, month: 5, day: 1 })
    );
}

#[test]
fn periodinput_range_order_is_checked() {
    assert!(PeriodInput::from_str("2024-05-07..2024-05-01").is_err());
    assert!(PeriodInput::from_str("2024-05-01..2024-05-01").is_ok());
}

#[test]
fn periodinput_default_is_all_time() {
    assert_eq!(PeriodInput::default(), PeriodInput::Preset(PresetPeriod::AllTime));
}

#[test]
fn dateinput_round_trip() {
    let d = DateInput::from_str("2024-01-02..=2024-01-03").unwrap();
    assert_eq!(
        d,
        DateInput::Range {
            start: Date { year: 2024, month: 1, day: 2 },
            end: Date { year: 2024, month: 1, day: 3 },
            inclusive: true
        }
    );
    assert!(DateInput::from_str("garbage").is_err());
}

#[test]
fn preset_display_names() {
    assert_eq!(PresetPeriod::ThisMonth.to_string(), "this-month");
    assert_eq!(PresetPeriod::default(), PresetPeriod::AllTime);
}

#[test]
fn period_labels_at_a_date() {
    let today = Date { year: 2024, month: 1, day: 15 };
    assert_eq!(Period::Today.to_string_at(&today), "Today");
    assert_eq!(Period::ThisMonth.to_string_at(&today), "January 2024");
    assert_eq!(Period::LastMonth.to_string_at(&today), "December 2023");
    assert_eq!(PresetPeriod::LastWeek.display_pretty_at(&today), "Last week");
}

#[test]
fn an_unreadable_period_lists_the_presets() {
    let e = PeriodInput::from_str("not-a-date").unwrap_err();
    assert!(e.contains("Period presets"));
    assert!(e.contains("last-week|lw|lwk|yesterweek|yw|ywk"));
    assert!(e.contains("Range: YYYY-MM-DD..YYYY-MM-DD"));
    assert_eq!(
        PeriodInput::from_str("2024-05-07..2024-05-01").unwrap_err(),
        "DateInput: start cannot be after end when using range"
    );
    assert_eq!(
        DateInput::from_str("garbage").unwrap_err(),
        "Provide either a range (YYYY-MM-DD..YYYY-MM-DD) or a single date (YYYY-MM-DD)"
    );
}

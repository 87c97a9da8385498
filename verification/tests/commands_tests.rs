use boat_cli::cli::{GroupBy, PrintActivityArgs, SortBy};
use boat_cli::commands::{
    aborted_msg, confirm_prompt, decide_start, plan_start, quick_create_args, resolve_group_by, resolve_period,
    update_prompt, updated_msg, StartPlan, StartStep,
};
use boat_cli::config::{Configuration, OutputFormat};
use boat_cli::period::{PeriodInput, PresetPeriod};
use boat_cli::resolve_tri_state;

#[test]
fn tri_state_flags_override_the_default() {
    assert!(resolve_tri_state(true, false, false));
    assert!(!resolve_tri_state(false, true, true));
    assert!(resolve_tri_state(false, false, true));
    assert!(!resolve_tri_state(true, true, false));
}

#[test]
fn period_falls_back_in_order() {
    let today = PeriodInput::Preset(PresetPeriod::Today);
    let week = PeriodInput::Preset(PresetPeriod::ThisWeek);
    assert_eq!(resolve_period(Some(today), Some(week), None), today);
    assert_eq!(resolve_period(None, Some(week), Some(today)), week);
    assert_eq!(resolve_period(None, None, Some(today)), today);
    assert_eq!(resolve_period(None, None, None), PeriodInput::Preset(PresetPeriod::AllTime));
    assert_eq!(resolve_group_by(None, Some(GroupBy::Day)), GroupBy::Day);
    assert_eq!(resolve_group_by(None, None), GroupBy::Ungrouped);
}

#[test]
fn start_handles() {
    assert!(matches!(plan_start("52", false), StartPlan::Start(52)));
    assert!(matches!(plan_start("-3", true), StartPlan::Start(-3)));
    assert!(matches!(plan_start("take down prod", false), StartPlan::InvalidHandle));
    match plan_start("take down prod", true) {
        StartPlan::QuickCreate(name) => assert_eq!(name, "take down prod"),
        other => panic!("unexpected {:?}", other),
    }
    let args = quick_create_args("x".to_owned());
    assert!(args.auto_start && args.tags.is_empty() && args.description.is_none());
}

#[test]
fn start_steps() {
    assert_eq!(decide_start(1, false, None), StartStep::NotFound);
    assert_eq!(decide_start(1, true, Some(1)), StartStep::AlreadyOngoing);
    assert_eq!(decide_start(1, true, Some(2)), StartStep::PauseThenStart);
    assert_eq!(decide_start(1, true, None), StartStep::Start);
}

#[test]
fn prompts() {
    assert_eq!(confirm_prompt("cancel", 3, "x"), "are you sure you want to cancel activity #3 \"x\"?");
    assert_eq!(aborted_msg("deleted"), "user aborted the operation, activity was not deleted");
    assert_eq!(update_prompt(2), "You are about to update 2 log entries. Do you want to proceed?");
    assert_eq!(updated_msg(4), "successfully updated 4 log entries");
}

#[test]
fn default_configuration() {
    let c = Configuration::create_default("/home/u/.config/boat/config.toml").unwrap();
    assert_eq!(c.database_path, "/home/u/.config/boat/boat.db");
    assert!(matches!(c.period, Some(PeriodInput::Preset(PresetPeriod::AllTime))));
    assert!(matches!(c.commands.list.period, Some(PeriodInput::Preset(PresetPeriod::ThisMonth))));
    assert_eq!(c.commands.list.group_by, Some(GroupBy::Day));
    assert!(matches!(c.commands.report.period, Some(PeriodInput::Preset(PresetPeriod::Today))));
    assert_eq!(c.format, OutputFormat::Plain);
    assert!(c.commands.cancel.confirm && c.commands.delete.confirm);
    assert!(c.commands.edit.show_instructions && c.commands.edit.show_activity_definitions);
    assert!(c.commands.start.quick_start && !c.commands.new.auto_start);
    assert!(Configuration::create_default("").is_err());
    assert_eq!(OutputFormat::default(), OutputFormat::Plain);
}

#[test]
fn argument_defaults() {
    assert!(!PrintActivityArgs::default().use_json_format);
    assert_eq!(GroupBy::default(), GroupBy::Ungrouped);
    assert_eq!(SortBy::default(), SortBy::Unsorted);
}

use vstd::prelude::*;

use crate::cli::{CreateActivityArgs, GroupBy};
use crate::date::{date_text, push_date, ts_in_range, two_digits, utc_date_of};
use crate::edit::EditLogDiff;
use crate::filter::utc_date;
use crate::models::Id;
use crate::period::{PeriodInput, PresetPeriod};
use crate::text::{push_nat_digits, chars_of, int_text, parse_i64, parse_i64_chars, push_int, push_padded, push_str, string_from_chars};

verus! {

/// The period a command uses: its argument, else the command's configured
/// period, else the configured default, else all time.
pub fn resolve_period(
    arg: Option<PeriodInput>,
    command: Option<PeriodInput>,
    global: Option<PeriodInput>,
) -> (r: PeriodInput)
    ensures
        r == match (arg, command, global) {
            (Some(p), _, _) => p,
            (None, Some(p), _) => p,
            (None, None, Some(p)) => p,
            (None, None, None) => PeriodInput::Preset(PresetPeriod::AllTime),
        },
{
    match arg {
        Some(p) => p,
        None => match command {
            Some(p) => p,
            None => match global {
                Some(p) => p,
                None => PeriodInput::Preset(PresetPeriod::AllTime),
            },
        },
    }
}

/// The grouping of a listing: its argument, else the configured one, else
/// none.
pub fn resolve_group_by(arg: Option<GroupBy>, configured: Option<GroupBy>) -> (r: GroupBy)
    ensures
        r == match (arg, configured) {
            (Some(g), _) => g,
            (None, Some(g)) => g,
            (None, None) => GroupBy::Ungrouped,
        },
{
    match arg {
        Some(g) => g,
        None => match configured {
            Some(g) => g,
            None => GroupBy::Ungrouped,
        },
    }
}

/// What the start command does with its handle.
#[derive(Debug)]
pub enum StartPlan {
    /// Create an activity with this name and start it.
    QuickCreate(String),
    /// Refuse the handle: it is no id and quick start is off.
    InvalidHandle,
    /// Start the activity with this id.
    Start(Id),
}

/// Reads the handle of the start command: an id, or, when quick start is
/// on, the name of an activity to create.
pub fn plan_start(handle: &str, quick_start: bool) -> (r: StartPlan)
    ensures
        match parse_i64(handle@) {
            Some(id) => r == StartPlan::Start(id),
            None => if quick_start {
                r matches StartPlan::QuickCreate(name) && name@ == handle@
            } else {
                r is InvalidHandle
            },
        },
{
    let v = chars_of(handle);
    match parse_i64_chars(&v) {
        Some(id) => StartPlan::Start(id),
        None => {
            if quick_start {
                StartPlan::QuickCreate(String::from_str(handle))
            } else {
                StartPlan::InvalidHandle
            }
        },
    }
}

/// The arguments with which quick start creates an activity: started, no
/// description, no tags.
pub fn quick_create_args(name: String) -> (r: CreateActivityArgs)
    ensures
        r.name == name,
        r.description is None,
        r.tags@.len() == 0,
        r.auto_start,
        !r.no_auto_start,
        !r.use_json_format,
{
    CreateActivityArgs {
        name,
        description: None,
        tags: Vec::new(),
        auto_start: true,
        no_auto_start: false,
        use_json_format: false,
    }
}

/// What starting an existing activity takes, given what is going on.
#[derive(Clone, Copy, Debug, PartialEq, Eq, Structural)]
pub enum StartStep {
    /// No activity has the id.
    NotFound,
    /// The activity already goes on: nothing to do.
    AlreadyOngoing,
    /// Pause the current activity, then start this one.
    PauseThenStart,
    /// Start the activity.
    Start,
}

/// Decides how to start the activity `id`, given whether it was found and
/// which activity goes on.
pub fn decide_start(id: Id, found: bool, current: Option<Id>) -> (r: StartStep)
    ensures
        r == (if !found {
            StartStep::NotFound
        } else {
            match current {
                Some(c) => if c == id {
                    StartStep::AlreadyOngoing
                } else {
                    StartStep::PauseThenStart
                },
                None => StartStep::Start,
            }
        }),
{
    if !found {
        return StartStep::NotFound;
    }
    match current {
        Some(c) => {
            if c == id {
                StartStep::AlreadyOngoing
            } else {
                StartStep::PauseThenStart
            }
        },
        None => StartStep::Start,
    }
}

/// The question asked before an action on an activity.
pub open spec fn confirm_text(action: Seq<char>, id: Id, name: Seq<char>) -> Seq<char> {
    "are you sure you want to "@ + action + " activity #"@ + int_text(id as int) + " \""@ + name + "\"?"@
}

/// Asks whether to go on with an action (`cancel`, `delete`, `modify`) on
/// an activity.
pub fn confirm_prompt(action: &str, id: Id, name: &str) -> (r: String)
    ensures
        r@ == confirm_text(action@, id, name@),
{
    let mut out: Vec<char> = Vec::new();
    push_str(&mut out, "are you sure you want to ");
    push_str(&mut out, action);
    push_str(&mut out, " activity #");
    push_int(&mut out, id);
    push_str(&mut out, " \"");
    push_str(&mut out, name);
    push_str(&mut out, "\"?");
    assert(out@ =~= confirm_text(action@, id, name@));
    string_from_chars(&out)
}

/// The message when the user declines an action; `done` is the action's
/// past participle.
pub fn aborted_msg(done: &str) -> (r: String)
    ensures
        r@ == "user aborted the operation, activity was not "@ + done@,
{
    let mut out: Vec<char> = Vec::new();
    push_str(&mut out, "user aborted the operation, activity was not ");
    push_str(&mut out, done);
    string_from_chars(&out)
}

/// One change to a stored log.
#[derive(Clone, Copy, Debug, PartialEq, Eq, Structural)]
pub enum LogUpdate {
    /// Set the start of a log.
    Start(Id, i64),
    /// Set the end of a log; none makes it open.
    End(Id, Option<i64>),
}

/// The updates of one diff: its new start, then its new end, each when it
/// changes.
pub open spec fn diff_updates(d: EditLogDiff) -> Seq<LogUpdate> {
    (match d.starts_at_new {
        Some(s) => seq![LogUpdate::Start(d.log_id, s)],
        None => Seq::empty(),
    }) + (match d.ends_at_new {
        Some(e) => seq![LogUpdate::End(d.log_id, e)],
        None => Seq::empty(),
    })
}

/// The updates of all diffs, diff after diff.
pub open spec fn all_updates(diffs: Seq<EditLogDiff>) -> Seq<LogUpdate>
    decreases diffs.len(),
{
    if diffs.len() == 0 {
        Seq::empty()
    } else {
        all_updates(diffs.drop_last()) + diff_updates(diffs.last())
    }
}

/// The updates that applying the diffs makes, in order; their number is
/// the count of updated entries.
pub fn planned_updates(diffs: &[EditLogDiff]) -> (r: Vec<LogUpdate>)
    ensures
        r@ == all_updates(diffs@),
{
    let mut r: Vec<LogUpdate> = Vec::new();
    let mut i: usize = 0;
    while i < diffs.len()
        invariant
            i <= diffs@.len(),
            r@ == all_updates(diffs@.take(i as int)),
        decreases diffs@.len() - i,
    {
        let d = diffs[i];
        let ghost before = r@;
        if let Some(s) = d.starts_at_new {
            r.push(LogUpdate::Start(d.log_id, s));
        }
        if let Some(e) = d.ends_at_new {
            r.push(LogUpdate::End(d.log_id, e));
        }
        assert(diffs@.take(i + 1).drop_last() =~= diffs@.take(i as int));
        assert(r@ =~= before + diff_updates(d));
        i = i + 1;
    }
    assert(diffs@.take(diffs@.len() as int) =~= diffs@);
    r
}

/// A time of day of a timestamp, UTC, as `%H:%M:%S`.
pub open spec fn utc_time_text(t: int) -> Seq<char> {
    let s = t % 86400;
    two_digits(s / 3600) + ":"@ + two_digits(s % 3600 / 60) + ":"@ + two_digits(s % 60)
}

/// How chrono writes a UTC date and time with `{}`: `2024-04-15 10:00:00 UTC`.
pub open spec fn utc_display_text(t: i64) -> Seq<char> {
    date_text(utc_date(t)) + " "@ + utc_time_text(t as int) + " UTC"@
}

/// How chrono writes a UTC date and time with `{:?}`: `2024-04-15T10:00:00Z`.
pub open spec fn utc_debug_text(t: i64) -> Seq<char> {
    date_text(utc_date(t)) + "T"@ + utc_time_text(t as int) + "Z"@
}

/// How an optional UTC date and time is written with `{:?}`.
pub open spec fn opt_debug_text(t: Option<i64>) -> Seq<char> {
    match t {
        Some(x) => "Some("@ + utc_debug_text(x) + ")"@,
        None => "None"@,
    }
}

fn push_utc_time(out: &mut Vec<char>, t: i64)
    ensures
        final(out)@ == old(out)@ + utc_time_text(t as int),
{
    let s = t % 86400;
    let s: i64 = if s < 0 { s + 86400 } else { s };
    assert(s == t as int % 86400);
    push_padded(out, (s / 3600) as u64, 2);
    push_str(out, ":");
    push_padded(out, (s % 3600 / 60) as u64, 2);
    push_str(out, ":");
    push_padded(out, (s % 60) as u64, 2);
    assert(out@ =~= old(out)@ + utc_time_text(t as int));
}

pub(crate) fn push_utc_display(out: &mut Vec<char>, t: i64)
    requires
        ts_in_range(t as int),
    ensures
        final(out)@ == old(out)@ + utc_display_text(t),
{
    let d = utc_date_of(t);
    push_date(out, &d);
    push_str(out, " ");
    push_utc_time(out, t);
    push_str(out, " UTC");
    assert(out@ =~= old(out)@ + utc_display_text(t));
}

fn push_utc_debug(out: &mut Vec<char>, t: i64)
    requires
        ts_in_range(t as int),
    ensures
        final(out)@ == old(out)@ + utc_debug_text(t),
{
    let d = utc_date_of(t);
    push_date(out, &d);
    push_str(out, "T");
    push_utc_time(out, t);
    push_str(out, "Z");
    assert(out@ =~= old(out)@ + utc_debug_text(t));
}

fn push_opt_debug(out: &mut Vec<char>, t: Option<i64>)
    requires
        t matches Some(x) ==> ts_in_range(x as int),
    ensures
        final(out)@ == old(out)@ + opt_debug_text(t),
{
    match t {
        Some(x) => {
            push_str(out, "Some(");
            push_utc_debug(out, x);
            push_str(out, ")");
        },
        None => {
            push_str(out, "None");
        },
    }
    assert(out@ =~= old(out)@ + opt_debug_text(t));
}

/// The times of a diff lie in chrono's range.
pub open spec fn diff_in_range(d: EditLogDiff) -> bool {
    &&& ts_in_range(d.starts_at_current as int)
    &&& d.starts_at_new matches Some(s) ==> ts_in_range(s as int)
    &&& d.ends_at_current matches Some(e) ==> ts_in_range(e as int)
    &&& d.ends_at_new matches Some(Some(e)) ==> ts_in_range(e as int)
}

/// How a diff shows its start.
pub open spec fn starts_part(d: EditLogDiff) -> Seq<char> {
    match d.starts_at_new {
        Some(s) => "starts_at: "@ + utc_display_text(d.starts_at_current) + " -> "@ + utc_display_text(s),
        None => "starts_at: "@ + utc_display_text(d.starts_at_current) + " (no change)"@,
    }
}

/// How a diff shows its end.
pub open spec fn ends_part(d: EditLogDiff) -> Seq<char> {
    match d.ends_at_new {
        Some(Some(e)) => "ends_at: "@ + opt_debug_text(d.ends_at_current) + " -> "@ + utc_debug_text(e),
        Some(None) => "ends_at: "@ + opt_debug_text(d.ends_at_current) + " -> None (log is now open-ended)"@,
        None => "ends_at: "@ + opt_debug_text(d.ends_at_current) + " (no change)"@,
    }
}

/// The line that shows a diff.
pub open spec fn diff_line(d: EditLogDiff) -> Seq<char> {
    "Log ID "@ + int_text(d.log_id as int) + ": "@ + starts_part(d) + ", "@ + ends_part(d) + "\n"@
}

/// The lines of the diffs, one after another.
pub open spec fn diff_lines(diffs: Seq<EditLogDiff>) -> Seq<char>
    decreases diffs.len(),
{
    if diffs.len() == 0 {
        Seq::empty()
    } else {
        diff_lines(diffs.drop_last()) + diff_line(diffs.last())
    }
}

fn push_starts_part(out: &mut Vec<char>, d: &EditLogDiff)
    requires
        diff_in_range(*d),
    ensures
        final(out)@ == old(out)@ + starts_part(*d),
{
    push_str(out, "starts_at: ");
    push_utc_display(out, d.starts_at_current);
    match d.starts_at_new {
        Some(s) => {
            push_str(out, " -> ");
            push_utc_display(out, s);
        },
        None => {
            push_str(out, " (no change)");
        },
    }
    assert(out@ =~= old(out)@ + starts_part(*d));
}

fn push_ends_part(out: &mut Vec<char>, d: &EditLogDiff)
    requires
        diff_in_range(*d),
    ensures
        final(out)@ == old(out)@ + ends_part(*d),
{
    push_str(out, "ends_at: ");
    push_opt_debug(out, d.ends_at_current);
    match d.ends_at_new {
        Some(Some(e)) => {
            push_str(out, " -> ");
            push_utc_debug(out, e);
        },
        Some(None) => {
            push_str(out, " -> None (log is now open-ended)");
        },
        None => {
            push_str(out, " (no change)");
        },
    }
    assert(out@ =~= old(out)@ + ends_part(*d));
}

fn push_diff_line(out: &mut Vec<char>, d: &EditLogDiff)
    requires
        diff_in_range(*d),
    ensures
        final(out)@ == old(out)@ + diff_line(*d),
{
    push_str(out, "Log ID ");
    push_int(out, d.log_id);
    push_str(out, ": ");
    push_starts_part(out, d);
    push_str(out, ", ");
    push_ends_part(out, d);
    push_str(out, "\n");
    assert(out@ =~= old(out)@ + diff_line(*d));
}

/// The changes to show before asking to apply them: a heading, then a line
/// per diff.
pub fn pretty_print_edit_diffs(diffs: &[EditLogDiff]) -> (r: String)
    requires
        forall|i: int| 0 <= i < diffs@.len() ==> diff_in_range(#[trigger] diffs@[i]),
    ensures
        r@ == "Detected changes:\n"@ + diff_lines(diffs@),
{
    let mut out: Vec<char> = Vec::new();
    push_str(&mut out, "Detected changes:\n");
    let ghost head = out@;
    let mut i: usize = 0;
    while i < diffs.len()
        invariant
            i <= diffs@.len(),
            forall|q: int| 0 <= q < diffs@.len() ==> diff_in_range(#[trigger] diffs@[q]),
            out@ == head + diff_lines(diffs@.take(i as int)),
        decreases diffs@.len() - i,
    {
        let d = diffs[i];
        assert(diff_in_range(diffs@[i as int]));
        let ghost before = out@;
        push_diff_line(&mut out, &d);
        assert(out@ =~= before + diff_line(d));
        assert(diffs@.take(i + 1).drop_last() =~= diffs@.take(i as int));
        i = i + 1;
    }
    assert(diffs@.take(diffs@.len() as int) =~= diffs@);
    string_from_chars(&out)
}

/// The question asked before applying edited logs.
pub fn update_prompt(count: usize) -> (r: String)
    ensures
        r@ == "You are about to update "@ + int_text(count as int) + " log entries. Do you want to proceed?"@,
{
    let mut out: Vec<char> = Vec::new();
    push_str(&mut out, "You are about to update ");
    push_nat_digits(&mut out, count as u64);
    push_str(&mut out, " log entries. Do you want to proceed?");
    string_from_chars(&out)
}

/// The message after applying edited logs.
pub fn updated_msg(updated: usize) -> (r: String)
    ensures
        r@ == "successfully updated "@ + int_text(updated as int) + " log entries"@,
{
    let mut out: Vec<char> = Vec::new();
    push_str(&mut out, "successfully updated ");
    push_nat_digits(&mut out, updated as u64);
    push_str(&mut out, " log entries");
    string_from_chars(&out)
}

} // verus!

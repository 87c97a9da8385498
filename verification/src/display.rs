use vstd::prelude::*;

use crate::cli::GroupBy;
use crate::date::{
    chrono_date_parse, chrono_parse_week_date, chrono_parse_ymd, chrono_week_date_parse, local_today, push_year,
    two_digits, year_text, day_number, days_since, Date, date_time_text, duration_parts, local_date_time_of, pretty_format_duration, utc_now, DateTimeFields,
    DateTimeRenderMode, Instant, local_fields_of, clock_error, clock_error_text,
};
use crate::models::{all_logs_wf, seconds_until, tags_str, tags_text, Activity, Id, Log};
use crate::paint::{
    blue, blue_code, bold_cyan, bold_cyan_code, bright_blue, bright_blue_code, bright_white,
    bright_white_code, cyan, cyan_code, green, green_code, italic, italic_code, painted, red, red_code, yellow, yellow_code,
};
use crate::period::{month_name, month_name_str};
use crate::text::{chars_of, int_text, join, push_chars, push_int, push_padded, push_str, slice_chars, string_from_chars};
use vstd::string::StringSliceAdditionalSpecFns;

verus! {

/// `n` dashes.
pub open spec fn dashes(n: nat) -> Seq<char> {
    Seq::new(n, |i: int| '-')
}

/// The top and bottom line of a ribbon around a text of `n` bytes.
pub open spec fn ribbon_edge(n: nat) -> Seq<char> {
    "    *"@ + dashes(n + 2) + "*\n"@
}

/// The arrow of a ribbon, with the tooltip in it when there is one.
pub open spec fn ribbon_arrow(tooltip: Option<Seq<char>>) -> Seq<char> {
    match tooltip {
        Some(tt) => "|=========( "@ + tt + " )====================>"@,
        None => "|==================================>"@,
    }
}

/// A ribbon: edges and arrow in blue, the text in bold cyan.
pub open spec fn ribbon_text(text: Seq<char>, bytes: nat, tooltip: Option<Seq<char>>, r: Seq<char>) -> bool {
    exists|edge: Seq<char>, bar: Seq<char>, t: Seq<char>, arrow: Seq<char>|
        painted(blue_code(), ribbon_edge(bytes), edge) && painted(blue_code(), "====|"@, bar) && painted(
            bold_cyan_code(),
            text,
            t,
        ) && painted(blue_code(), ribbon_arrow(tooltip), arrow) && r == edge + bar + " "@ + t + " "@ + arrow
            + "\n"@ + edge
}

fn push_dashes(out: &mut Vec<char>, n: usize)
    ensures
        final(out)@ == old(out)@ + dashes(n as nat),
{
    let mut i: usize = 0;
    while i < n
        invariant
            i <= n,
            out@ == old(out)@ + dashes(i as nat),
        decreases n - i,
    {
        out.push('-');
        i = i + 1;
        assert(out@ =~= old(out)@ + dashes(i as nat));
    }
}

/// The text between two dashed lines and behind an arrow, for headings;
/// the lines are two dashes longer than the text has bytes.
pub fn format_ascii_ribbon(text: &str, tooltip_text: Option<&str>) -> (r: String)
    requires
        text.spec_bytes().len() + 2 <= usize::MAX,
    ensures
        ribbon_text(
            text@,
            text.spec_bytes().len(),
            match tooltip_text {
                Some(tt) => Some(tt@),
                None => None,
            },
            r@,
        ),
{
    let mut e: Vec<char> = Vec::new();
    push_str(&mut e, "    *");
    push_dashes(&mut e, text.len() + 2);
    push_str(&mut e, "*\n");
    let mut a: Vec<char> = Vec::new();
    match tooltip_text {
        Some(tt) => {
            push_str(&mut a, "|=========( ");
            push_str(&mut a, tt);
            push_str(&mut a, " )====================>");
        },
        None => {
            push_str(&mut a, "|==================================>");
        },
    }
    let ghost tooltip = match tooltip_text {
        Some(tt) => Some(tt@),
        None => None,
    };
    assert(e@ =~= ribbon_edge(text.spec_bytes().len()));
    assert(a@ =~= ribbon_arrow(tooltip));
    let edge_s = string_from_chars(&e);
    let arrow_s = string_from_chars(&a);
    let edge = blue(edge_s.as_str());
    let bar = blue("====|");
    let t = bold_cyan(text);
    let arrow = blue(arrow_s.as_str());
    let mut out: Vec<char> = Vec::new();
    push_str(&mut out, edge.as_str());
    push_str(&mut out, bar.as_str());
    push_str(&mut out, " ");
    push_str(&mut out, t.as_str());
    push_str(&mut out, " ");
    push_str(&mut out, arrow.as_str());
    push_str(&mut out, "\n");
    push_str(&mut out, edge.as_str());
    assert(out@ =~= edge@ + bar@ + " "@ + t@ + " "@ + arrow@ + "\n"@ + edge@);
    string_from_chars(&out)
}

/// `#<id> "<name>"`, as the messages about an activity show it.
pub open spec fn activity_ref(id: Id, name: Seq<char>) -> Seq<char> {
    " #"@ + int_text(id as int) + " \""@ + name + "\""@
}

/// A word in a style, then the activity.
pub open spec fn activity_msg(code: Seq<char>, word: Seq<char>, a: Activity, r: Seq<char>) -> bool {
    exists|w: Seq<char>| painted(code, word, w) && r == w + activity_ref(a.id, a.name@)
}

fn with_activity_ref(word: String, a: &Activity) -> (r: String)
    ensures
        r@ == word@ + activity_ref(a.id, a.name@),
{
    let mut out: Vec<char> = Vec::new();
    push_str(&mut out, word.as_str());
    push_str(&mut out, " #");
    push_int(&mut out, a.id);
    push_str(&mut out, " \"");
    push_str(&mut out, a.name.as_str());
    push_str(&mut out, "\"");
    assert(out@ =~= word@ + activity_ref(a.id, a.name@));
    string_from_chars(&out)
}

/// The message for a new activity: `created new #<id> "<name>"`.
pub fn created_activity_msg(activity: &Activity) -> (r: String)
    ensures
        exists|w: Seq<char>|
            painted(cyan_code(), "created"@, w) && r@ == w + " new"@ + activity_ref(activity.id, activity.name@),
{
    let w = cyan("created");
    let mut out: Vec<char> = Vec::new();
    push_str(&mut out, w.as_str());
    push_str(&mut out, " new");
    let s = string_from_chars(&out);
    let r = with_activity_ref(s, activity);
    assert(r@ =~= w@ + " new"@ + activity_ref(activity.id, activity.name@));
    r
}

/// The message for a paused activity, with the local time it stopped at.
pub fn paused_activity_msg(activity: &Activity, stop_dt: &DateTimeFields) -> (r: Result<String, String>)
    requires
        stop_dt.wf(),
    ensures
        r matches Ok(m) && exists|w: Seq<char>|
            painted(bright_blue_code(), "paused"@, w) && m@ == w + activity_ref(activity.id, activity.name@)
                + " at "@ + date_time_text(DateTimeRenderMode::TimeOnly, *stop_dt),
{
    let stop = DateTimeRenderMode::TimeOnly.render_date_time(stop_dt);
    let w = bright_blue("paused");
    let m = with_activity_ref(w, activity);
    let mut out: Vec<char> = Vec::new();
    push_str(&mut out, m.as_str());
    push_str(&mut out, " at ");
    push_str(&mut out, stop.as_str());
    Ok(string_from_chars(&out))
}

/// The message for a started activity, with the local time it started at.
pub fn started_activity_msg(activity: &Activity, start_dt: &DateTimeFields) -> (r: String)
    requires
        start_dt.wf(),
    ensures
        exists|w: Seq<char>|
            painted(green_code(), "started"@, w) && r@ == w + activity_ref(activity.id, activity.name@) + " at "@
                + date_time_text(DateTimeRenderMode::TimeOnly, *start_dt),
{
    let start = DateTimeRenderMode::TimeOnly.render_date_time(start_dt);
    let w = green("started");
    let m = with_activity_ref(w, activity);
    let mut out: Vec<char> = Vec::new();
    push_str(&mut out, m.as_str());
    push_str(&mut out, " at ");
    push_str(&mut out, start.as_str());
    string_from_chars(&out)
}

/// The error shown for a name made of digits only, in red.
pub fn invalid_activity_name(activity_name: &str) -> (r: String)
    ensures
        painted(red_code(), "the activity name cannot only contain digits: \""@ + activity_name@ + "\""@, r@),
{
    let mut out: Vec<char> = Vec::new();
    push_str(&mut out, "the activity name cannot only contain digits: \"");
    push_str(&mut out, activity_name);
    push_str(&mut out, "\"");
    let s = string_from_chars(&out);
    red(s.as_str())
}

/// The error shown for an unknown activity id, in red.
pub fn activity_id_does_not_exist(id: Id) -> (r: String)
    ensures
        painted(red_code(), "#"@ + int_text(id as int) + " does not exist"@, r@),
{
    let mut out: Vec<char> = Vec::new();
    push_str(&mut out, "#");
    push_int(&mut out, id);
    push_str(&mut out, " does not exist");
    let s = string_from_chars(&out);
    red(s.as_str())
}

/// The error shown for an activity id that is not a number, in red.
pub fn invalid_activity_id_format(id_str: &str) -> (r: String)
    ensures
        painted(red_code(), "invalid activity ID format: \""@ + id_str@ + "\""@, r@),
{
    let mut out: Vec<char> = Vec::new();
    push_str(&mut out, "invalid activity ID format: \"");
    push_str(&mut out, id_str);
    push_str(&mut out, "\"");
    let s = string_from_chars(&out);
    red(s.as_str())
}

/// The message for a deleted activity.
pub fn deleted_activity_msg(activity: &Activity) -> (r: String)
    ensures
        activity_msg(red_code(), "deleted"@, *activity, r@),
{
    with_activity_ref(red("deleted"), activity)
}

/// The message for a modified activity.
pub fn modified_activity_msg(activity: &Activity) -> (r: String)
    ensures
        activity_msg(yellow_code(), "modified"@, *activity, r@),
{
    with_activity_ref(yellow("modified"), activity)
}

/// The message for a cancelled activity.
pub fn cancelled_activity_msg(activity: &Activity) -> (r: String)
    ensures
        activity_msg(bright_white_code(), "cancelled"@, *activity, r@),
{
    with_activity_ref(bright_white("cancelled"), activity)
}

/// The message when the activity asked to start already goes on, in
/// italics.
pub fn already_ongoing_msg() -> (r: String)
    ensures
        painted(italic_code(), "activity already ongoing..."@, r@),
{
    italic("activity already ongoing...")
}

/// The log of the activity that goes on: its first log without an end.
pub fn ongoing_log(activity: &Activity) -> (r: Option<Log>)
    ensures
        r == first_open(activity.logs@),
{
    match find_open(&activity.logs) {
        Some(i) => Some(activity.logs[i]),
        None => None,
    }
}

/// The message when no activity goes on.
pub fn no_current_act_msg() -> (r: String)
    ensures
        r@ == "no current activity"@,
{
    String::from_str("no current activity")
}

/// How far back a date lies, in words, from the number of days since it.
pub open spec fn date_info_text(days: int) -> Seq<char> {
    if days == 0 {
        "Today"@
    } else if days == 1 {
        "Yesterday"@
    } else if days <= 7 {
        int_text(days) + " days ago"@
    } else if days / 7 <= 4 {
        int_text(days / 7) + " week"@ + (if days / 7 == 1 { Seq::<char>::empty() } else { "s"@ }) + " ago"@
    } else if days / 7 / 4 == 1 {
        "Last month"@
    } else {
        int_text(days / 7 / 4) + " months ago"@
    }
}

/// Says how many days, weeks or months ago something was, given the
/// number of days since it.
pub fn date_info_msg_for_days(diff_days: i64) -> (r: String)
    ensures
        r@ == date_info_text(diff_days as int),
{
    if diff_days == 0 {
        return String::from_str("Today");
    }
    if diff_days == 1 {
        return String::from_str("Yesterday");
    }
    let mut out: Vec<char> = Vec::new();
    if diff_days <= 7 {
        push_int(&mut out, diff_days);
        push_str(&mut out, " days ago");
        return string_from_chars(&out);
    }
    let diff_weeks = diff_days / 7;
    if diff_weeks <= 4 {
        push_int(&mut out, diff_weeks);
        push_str(&mut out, " week");
        if diff_weeks != 1 {
            push_str(&mut out, "s");
        }
        push_str(&mut out, " ago");
        assert(out@ =~= date_info_text(diff_days as int));
        return string_from_chars(&out);
    }
    let diff_months = diff_weeks / 4;
    if diff_months == 1 {
        return String::from_str("Last month");
    }
    push_int(&mut out, diff_months);
    push_str(&mut out, " months ago");
    string_from_chars(&out)
}

/// Says how long before `today` the date `compare_to` was.
pub fn get_date_info_msg(today: &Date, compare_to: &Date) -> (r: String)
    requires
        today.wf(),
        compare_to.wf(),
    ensures
        r@ == date_info_text(day_number(*today) - day_number(*compare_to)),
{
    let d = days_since(today, compare_to);
    date_info_msg_for_days(d)
}

/// Whether a `-W` starts at index `i`.
pub open spec fn week_mark_at(s: Seq<char>, i: int) -> bool {
    0 <= i && i + 1 < s.len() && s[i] == '-' && s[i + 1] == 'W'
}

/// Whether the first `-W` of `s` starts at `i`.
pub open spec fn is_first_week_mark(s: Seq<char>, i: int) -> bool {
    week_mark_at(s, i) && forall|j: int| 0 <= j < i ==> !week_mark_at(s, j)
}

/// Where the first `-W` of `s` starts, if anywhere.
pub open spec fn first_week_mark(s: Seq<char>) -> Option<int> {
    if exists|i: int| is_first_week_mark(s, i) {
        Some(choose|i: int| is_first_week_mark(s, i))
    } else {
        None
    }
}

proof fn lemma_first_week_mark_unique(s: Seq<char>, i: int)
    requires
        is_first_week_mark(s, i),
    ensures
        first_week_mark(s) == Some(i),
{
    let k = choose|k: int| is_first_week_mark(s, k);
    if k < i {
        assert(!week_mark_at(s, k));
    }
    if i < k {
        assert(!week_mark_at(s, i));
    }
}

fn find_week_mark(v: &Vec<char>, from: usize) -> (r: Option<usize>)
    requires
        from <= v.len(),
    ensures
        match r {
            Some(i) => from <= i && first_week_mark(v@.subrange(from as int, v.len() as int)) == Some(i - from),
            None => first_week_mark(v@.subrange(from as int, v.len() as int)) is None,
        },
{
    let ghost t = v@.subrange(from as int, v.len() as int);
    let mut i: usize = from;
    while i < v.len() && i + 1 < v.len()
        invariant
            from <= i <= v.len(),
            t == v@.subrange(from as int, v.len() as int),
            forall|j: int| 0 <= j < i - from ==> !week_mark_at(t, j),
        decreases v.len() - i,
    {
        if v[i] == '-' && v[i + 1] == 'W' {
            proof {
                assert(week_mark_at(t, i - from));
                lemma_first_week_mark_unique(t, i - from);
            }
            return Some(i);
        }
        i = i + 1;
    }
    assert forall|k: int| !is_first_week_mark(t, k) by {
        if is_first_week_mark(t, k) {
            assert(week_mark_at(t, k));
            assert(!week_mark_at(t, k));
        }
    }
    None
}

/// The year part of a week key: what comes before its first `-W`.
pub open spec fn week_key_year(key: Seq<char>) -> Seq<char> {
    match first_week_mark(key) {
        Some(i) => key.subrange(0, i),
        None => key,
    }
}

/// The week part of a week key: what comes after its first `-W`, up to the
/// next one; the whole key when it has none.
pub open spec fn week_key_week(key: Seq<char>) -> Seq<char> {
    match first_week_mark(key) {
        Some(i) => {
            let rest = key.subrange(i + 2, key.len() as int);
            match first_week_mark(rest) {
                Some(j) => rest.subrange(0, j),
                None => rest,
            }
        },
        None => key,
    }
}

/// The text that names a day of the week of a week key (`%Y-W%W-%u`).
pub open spec fn week_day_text(key: Seq<char>, day: char) -> Seq<char> {
    week_key_year(key) + "-W"@ + week_key_week(key) + seq!['-', day]
}

/// The abbreviated English name of a month (chrono's `%b`).
pub open spec fn month_abbrev(m: int) -> Seq<char> {
    month_name(m).subrange(0, 3)
}

/// A date as `%b %d, %Y`, e.g. `Apr 15, 2024`.
pub open spec fn short_date_text(d: Date) -> Seq<char> {
    month_abbrev(d.month as int) + " "@ + two_digits(d.day as int) + ", "@ + year_text(d.year as int)
}

/// The text and tooltip of the heading of a group of logs, or the parse that
/// failed. The weeks of a week key are read as counted from the year's first
/// Monday; a day is described as seen from `today`.
pub open spec fn group_heading(
    group_by: GroupBy,
    key: Seq<char>,
    today: Date,
) -> Option<(Seq<char>, Option<Seq<char>>)> {
    match group_by {
        GroupBy::Ungrouped => Some(("ALL"@, None)),
        GroupBy::Day => match chrono_date_parse(key) {
            Some(t) => Some(
                (
                    key,
                    Some(date_info_text(day_number(today) - day_number(Date { year: t.0, month: t.1, day: t.2 }))),
                ),
            ),
            None => None,
        },
        GroupBy::Week => match (
            chrono_week_date_parse(week_day_text(key, '1')),
            chrono_week_date_parse(week_day_text(key, '7')),
        ) {
            (Some(a), Some(b)) => Some(
                (
                    "Week "@ + week_key_week(key),
                    Some(
                        short_date_text(Date { year: a.0, month: a.1, day: a.2 }) + " - "@ + short_date_text(
                            Date { year: b.0, month: b.1, day: b.2 },
                        ),
                    ),
                ),
            ),
            _ => None,
        },
        GroupBy::Month => match chrono_date_parse(key + "-01"@) {
            Some(t) => Some((month_name(t.1 as int) + " "@ + year_text(t.0 as int), None)),
            None => None,
        },
        GroupBy::Year => Some((key, None)),
    }
}

/// The week key names a week whose Sunday chrono can read whenever it can
/// read the Monday.
pub open spec fn week_key_readable(group_by: GroupBy, key: Seq<char>) -> bool {
    group_by == GroupBy::Week && chrono_week_date_parse(week_day_text(key, '1')) is Some
        ==> chrono_week_date_parse(week_day_text(key, '7')) is Some
}

fn month_abbrev_str(m: u32) -> (r: &'static str)
    ensures
        r@ == month_abbrev(m as int),
{
    proof {
        reveal_strlit("January");
        reveal_strlit("February");
        reveal_strlit("March");
        reveal_strlit("April");
        reveal_strlit("May");
        reveal_strlit("June");
        reveal_strlit("July");
        reveal_strlit("August");
        reveal_strlit("September");
        reveal_strlit("October");
        reveal_strlit("November");
        reveal_strlit("December");
        reveal_strlit("Jan");
        reveal_strlit("Feb");
        reveal_strlit("Mar");
        reveal_strlit("Apr");
        reveal_strlit("Jun");
        reveal_strlit("Jul");
        reveal_strlit("Aug");
        reveal_strlit("Sep");
        reveal_strlit("Oct");
        reveal_strlit("Nov");
        reveal_strlit("Dec");
    }
    let r = if m == 1 {
        "Jan"
    } else if m == 2 {
        "Feb"
    } else if m == 3 {
        "Mar"
    } else if m == 4 {
        "Apr"
    } else if m == 5 {
        "May"
    } else if m == 6 {
        "Jun"
    } else if m == 7 {
        "Jul"
    } else if m == 8 {
        "Aug"
    } else if m == 9 {
        "Sep"
    } else if m == 10 {
        "Oct"
    } else if m == 11 {
        "Nov"
    } else {
        "Dec"
    };
    assert(r@ =~= month_abbrev(m as int));
    r
}

fn push_short_date(out: &mut Vec<char>, d: &Date)
    requires
        d.wf(),
    ensures
        final(out)@ == old(out)@ + short_date_text(*d),
{
    push_str(out, month_abbrev_str(d.month));
    push_str(out, " ");
    push_padded(out, d.day as u64, 2);
    push_str(out, ", ");
    push_year(out, d.year);
    assert(out@ =~= old(out)@ + short_date_text(*d));
}

/// `r` gives the heading of the group, or an error where it has none.
pub open spec fn heading_given(
    group_by: GroupBy,
    key: Seq<char>,
    today: Date,
    r: Result<(String, Option<String>), chrono::ParseError>,
) -> bool {
    match group_heading(group_by, key, today) {
        Some((t, tt)) => r matches Ok((a, b)) && a@ == t && match b {
            Some(x) => tt == Some(x@),
            None => tt is None,
        },
        None => r is Err,
    }
}

/// The year and week parts of a week key.
fn week_key_parts(key: &str) -> (r: (Vec<char>, Vec<char>))
    ensures
        r.0@ == week_key_year(key@),
        r.1@ == week_key_week(key@),
{
    let v = chars_of(key);
    match find_week_mark(&v, 0) {
        Some(i) => {
            assert(v@.subrange(0, v@.len() as int) =~= v@);
            let y = slice_chars(&v, 0, i);
            let w = match find_week_mark(&v, i + 2) {
                Some(j) => slice_chars(&v, i + 2, j),
                None => slice_chars(&v, i + 2, v.len()),
            };
            proof {
                let rest = v@.subrange(i + 2, v@.len() as int);
                match first_week_mark(rest) {
                    Some(j) => {
                        assert(w@ =~= rest.subrange(0, j));
                    },
                    None => {
                        assert(w@ =~= rest);
                    },
                }
            }
            (y, w)
        },
        None => {
            assert(v@.subrange(0, v@.len() as int) =~= v@);
            (v.clone(), v)
        },
    }
}

/// The texts naming the Monday and the Sunday of a week key.
fn week_day_strings(year_part: &Vec<char>, week_part: &Vec<char>) -> (r: (String, String))
    ensures
        r.0@ == year_part@ + "-W"@ + week_part@ + seq!['-', '1'],
        r.1@ == year_part@ + "-W"@ + week_part@ + seq!['-', '7'],
{
    let mut first: Vec<char> = Vec::new();
    push_chars(&mut first, year_part);
    push_str(&mut first, "-W");
    push_chars(&mut first, week_part);
    push_str(&mut first, "-1");
    let mut last: Vec<char> = Vec::new();
    push_chars(&mut last, year_part);
    push_str(&mut last, "-W");
    push_chars(&mut last, week_part);
    push_str(&mut last, "-7");
    proof {
        reveal_strlit("-1");
        reveal_strlit("-7");
    }
    assert(first@ =~= year_part@ + "-W"@ + week_part@ + seq!['-', '1']);
    assert(last@ =~= year_part@ + "-W"@ + week_part@ + seq!['-', '7']);
    (string_from_chars(&first), string_from_chars(&last))
}

/// The text and tooltip of the heading of a group of logs whose key is
/// `key`, with `today` as the day a day's heading counts from, or chrono's
/// error for a key that does not parse as a date.
pub fn get_group_by_display_values_at(group_by: GroupBy, key: &str, today: &Date) -> (r: Result<(String, Option<String>), chrono::ParseError>)
    requires
        week_key_readable(group_by, key@),
        today.wf(),
    ensures
        heading_given(group_by, key@, *today, r),
{
    let ghost fixed = *today;
    match group_by {
        GroupBy::Ungrouped => {
            let r = Ok((String::from_str("ALL"), None));
            assert(heading_given(group_by, key@, fixed, r));
            r
        },
        GroupBy::Day => {
            match chrono_parse_ymd(key) {
                Ok(d) => {
                    let msg = get_date_info_msg(today, &d);
                    let r = Ok((String::from_str(key), Some(msg)));
                    assert(heading_given(group_by, key@, *today, r));
                    r
                },
                Err(e) => {
                    let r = Err(e);
                    assert(heading_given(group_by, key@, *today, r));
                    r
                },
            }
        },
        GroupBy::Week => {
            let (year_part, week_part) = week_key_parts(key);
            let (first_s, last_s) = week_day_strings(&year_part, &week_part);
            match chrono_parse_week_date(first_s.as_str()) {
                Ok(a) => {
                    let b = match chrono_parse_week_date(last_s.as_str()) {
                        Ok(b) => b,
                        Err(_) => {
                            assert(false);
                            a
                        },
                    };
                    let mut t: Vec<char> = Vec::new();
                    push_str(&mut t, "Week ");
                    push_chars(&mut t, &week_part);
                    let mut tt: Vec<char> = Vec::new();
                    push_short_date(&mut tt, &a);
                    push_str(&mut tt, " - ");
                    push_short_date(&mut tt, &b);
                    let ghost today = Date { year: 2000, month: 1, day: 1 };
                    let ghost h = group_heading(group_by, key@, today).unwrap();
                    assert(t@ =~= h.0);
                    assert(Some(tt@) =~= h.1);
                    let r = Ok((string_from_chars(&t), Some(string_from_chars(&tt))));
                    assert(heading_given(group_by, key@, fixed, r));
                    r
                },
                Err(e) => {
                    let r = Err(e);
                    assert(heading_given(group_by, key@, fixed, r));
                    r
                },
            }
        },
        GroupBy::Month => {
            let mut k: Vec<char> = Vec::new();
            push_str(&mut k, key);
            push_str(&mut k, "-01");
            let ks = string_from_chars(&k);
            match chrono_parse_ymd(ks.as_str()) {
                Ok(d) => {
                    let mut t: Vec<char> = Vec::new();
                    push_str(&mut t, month_name_str(d.month));
                    push_str(&mut t, " ");
                    push_year(&mut t, d.year);
                    let ghost today = Date { year: 2000, month: 1, day: 1 };
                    let ghost h = group_heading(group_by, key@, today).unwrap();
                    assert(t@ =~= h.0);
                    let r = Ok((string_from_chars(&t), None));
                    assert(heading_given(group_by, key@, fixed, r));
                    r
                },
                Err(e) => {
                    let r = Err(e);
                    assert(heading_given(group_by, key@, fixed, r));
                    r
                },
            }
        },
        GroupBy::Year => {
            let r = Ok((String::from_str(key), None));
            assert(heading_given(group_by, key@, fixed, r));
            r
        },
    }
}

/// The text and tooltip of the heading of a group of logs whose key is
/// `key`, a day's heading counting from today in the local time zone, or
/// chrono's error for a key that does not parse as a date; none for a day
/// when the system clock gives no usable instant.
pub fn get_group_by_display_values(group_by: GroupBy, key: &str) -> (r: Option<Result<(String, Option<String>), chrono::ParseError>>)
    requires
        week_key_readable(group_by, key@),
    ensures
        group_by != GroupBy::Day ==> r is Some,
        r matches Some(x) ==> exists|today: Date| today.wf() && #[trigger] heading_given(group_by, key@, today, x),
{
    match group_by {
        GroupBy::Day => match local_today() {
            Some(today) => Some(get_group_by_display_values_at(group_by, key, &today)),
            None => None,
        },
        _ => {
            let fixed = Date { year: 2000, month: 1, day: 1 };
            Some(get_group_by_display_values_at(group_by, key, &fixed))
        },
    }
}

/// The heading of a group as `get_group_by_display_values` gives it, or
/// nothing for a week key whose Monday chrono reads but not its Sunday.
pub fn group_display_values(group_by: GroupBy, key: &str) -> (r: Option<Option<Result<(String, Option<String>), chrono::ParseError>>>)
    ensures
        r is None <==> !week_key_readable(group_by, key@),
        r matches Some(y) ==> (group_by != GroupBy::Day ==> y is Some),
        r matches Some(y) ==> (y matches Some(x) ==> exists|today: Date| today.wf() && #[trigger] heading_given(group_by, key@, today, x)),
{
    if let GroupBy::Week = group_by {
        let (year_part, week_part) = week_key_parts(key);
        let (first_s, last_s) = week_day_strings(&year_part, &week_part);
        let first_ok = chrono_parse_week_date(first_s.as_str()).is_ok();
        let last_ok = chrono_parse_week_date(last_s.as_str()).is_ok();
        if first_ok && !last_ok {
            return None;
        }
    }
    Some(get_group_by_display_values(group_by, key))
}

/// The first log of the sequence that has no end.
pub open spec fn first_open(logs: Seq<Log>) -> Option<Log>
    decreases logs.len(),
{
    if logs.len() == 0 {
        None
    } else if logs[0].ends_at is None {
        Some(logs[0])
    } else {
        first_open(logs.drop_first())
    }
}

/// The description in parentheses after a space, or nothing.
pub open spec fn description_part(d: Option<String>) -> Seq<char> {
    match d {
        Some(x) => " ("@ + x@ + ")"@,
        None => Seq::<char>::empty(),
    }
}

/// The label, reference, description and tags of the current activity.
pub open spec fn current_head(label: Seq<char>, a: Activity, tags: Seq<char>) -> Seq<char> {
    label + activity_ref(a.id, a.name@) + description_part(a.description) + (if a.tags@.len() > 0 {
        " ["@ + tags + "]"@
    } else {
        Seq::<char>::empty()
    })
}

/// The message about the current activity: its reference, description and
/// tags, then the local time it started at and how long it has gone on.
pub open spec fn current_text(
    label: Seq<char>,
    a: Activity,
    tags: Seq<char>,
    start: DateTimeFields,
    seconds: int,
) -> Seq<char> {
    current_head(label, a, tags) + ": "@ + date_time_text(DateTimeRenderMode::TimeOnly, start) + " -> "@ + "Now"@ + " ("@ + join(
        duration_parts(seconds, true),
        " "@,
    ) + ")"@
}

fn find_open(logs: &Vec<Log>) -> (r: Option<usize>)
    ensures
        match r {
            Some(i) => i < logs.len() && first_open(logs@) == Some(logs@[i as int]),
            None => first_open(logs@) is None,
        },
{
    let mut i: usize = 0;
    assert(logs@.subrange(0, logs@.len() as int) =~= logs@);
    while i < logs.len()
        invariant
            i <= logs.len(),
            first_open(logs@) == first_open(logs@.subrange(i as int, logs@.len() as int)),
        decreases logs.len() - i,
    {
        let ghost rest = logs@.subrange(i as int, logs@.len() as int);
        assert(rest.drop_first() =~= logs@.subrange(i + 1, logs@.len() as int));
        if logs[i].ends_at.is_none() {
            return Some(i);
        }
        i = i + 1;
    }
    None
}

fn push_current_head(out: &mut Vec<char>, label: &String, activity: &Activity, tags: &String)
    ensures
        final(out)@ == old(out)@ + current_head(label@, *activity, tags@),
{
    let ghost start = out@;
    push_str(out, label.as_str());
    push_str(out, " #");
    push_int(out, activity.id);
    push_str(out, " \"");
    push_str(out, activity.name.as_str());
    push_str(out, "\"");
    match &activity.description {
        Some(d) => {
            push_str(out, " (");
            push_str(out, d.as_str());
            push_str(out, ")");
        },
        None => {},
    }
    if activity.tags.len() > 0 {
        push_str(out, " [");
        push_str(out, tags.as_str());
        push_str(out, "]");
    }
    assert(out@ =~= start + current_head(label@, *activity, tags@));
}

fn current_string(label: &String, activity: &Activity, tags: &String, start: &DateTimeFields, seconds: i64) -> (r: String)
    requires
        start.wf(),
    ensures
        r@ == current_text(label@, *activity, tags@, *start, seconds as int),
{
    let mut out: Vec<char> = Vec::new();
    push_current_head(&mut out, label, activity, tags);
    push_str(&mut out, ": ");
    let st = DateTimeRenderMode::TimeOnly.render_date_time(start);
    push_str(&mut out, st.as_str());
    push_str(&mut out, " -> ");
    push_str(&mut out, "Now");
    push_str(&mut out, " (");
    let d = pretty_format_duration(seconds, true);
    push_str(&mut out, d.as_str());
    push_str(&mut out, ")");
    assert(out@ =~= current_text(label@, *activity, tags@, *start, seconds as int));
    string_from_chars(&out)
}

/// The message about the current activity, the time it has gone on measured
/// at `now`; an error when none of its logs goes on.
pub fn current_activity_msg_at(activity: &Activity, now: Instant) -> (r: Result<String, String>)
    requires
        all_logs_wf(activity.logs@),
        now.wf(),
    ensures
        match r {
            Ok(m) => first_open(activity.logs@) matches Some(log) && exists|label: Seq<char>, tags: Seq<char>, start: DateTimeFields|
                painted(blue_code(), "current:"@, label) && (activity.tags@.len() > 0 ==> tags_text(activity.tags@, tags))
                    && start.wf() && local_fields_of(log.starts_at as int, start) && m@ == current_text(label, *activity, tags, start, seconds_until(now, log.starts_at)),
            Err(e) => first_open(activity.logs@) is None && e@ == "there should be an ongoing log"@,
        },
{
    let i = match find_open(&activity.logs) {
        Some(i) => i,
        None => return Err(String::from_str("there should be an ongoing log")),
    };
    let log = activity.logs[i];
    assert(log.wf());
    let start = local_date_time_of(log.starts_at).unwrap();
    let seconds: i64 = if now.secs >= log.starts_at || now.nanos == 0 {
        now.secs - log.starts_at
    } else {
        now.secs - log.starts_at + 1
    };
    let label = blue("current:");
    let tags = tags_str(&activity.tags);
    let m = current_string(&label, activity, &tags, &start, seconds);
    assert(seconds == seconds_until(now, log.starts_at));
    assert(local_fields_of(log.starts_at as int, start));
    assert(m@ == current_text(label@, *activity, tags@, start, seconds_until(now, log.starts_at)));
    Ok(m)
}

/// The message about the current activity, the time it has gone on measured
/// now; an error when none of its logs goes on, or when the system clock
/// gives no usable instant.
pub fn current_activity_msg(activity: &Activity) -> (r: Result<String, String>)
    requires
        all_logs_wf(activity.logs@),
    ensures
        match r {
            Ok(m) => first_open(activity.logs@) matches Some(log) && exists|
                now: Instant,
                label: Seq<char>,
                tags: Seq<char>,
                start: DateTimeFields,
            |
                now.wf() && painted(blue_code(), "current:"@, label) && (activity.tags@.len() > 0 ==> tags_text(
                    activity.tags@,
                    tags,
                )) && start.wf() && local_fields_of(log.starts_at as int, start) && m@ == current_text(label, *activity, tags, start, seconds_until(now, log.starts_at)),
            Err(e) => (first_open(activity.logs@) is None && e@ == "there should be an ongoing log"@) || (
            first_open(activity.logs@) is Some && e@ == clock_error_text()),
        },
{
    match utc_now() {
        Some(now) => current_activity_msg_at(activity, now),
        None => match ongoing_log(activity) {
            Some(_) => Err(clock_error()),
            None => Err(String::from_str("there should be an ongoing log")),
        },
    }
}

} // verus!

use vstd::prelude::*;

use crate::date::{
    chrono_iso_week, chrono_utc_date, days_in_month, iso_week_of, lemma_local_date_of_fields, local_date_of,
    local_date_time_of, local_today, ts_in_range, ts_stored, utc_date_of, utc_now, valid_date, Date, Instant,
};
use crate::models::Log;
use crate::period::{previous_month, PeriodInput, PresetPeriod};

verus! {

/// The day before a date.
pub open spec fn previous_day(d: Date) -> Date {
    if d.day > 1 {
        Date { year: d.year, month: d.month, day: (d.day - 1) as u32 }
    } else if d.month > 1 {
        Date {
            year: d.year,
            month: (d.month - 1) as u32,
            day: days_in_month(d.year as int, d.month - 1) as u32,
        }
    } else {
        Date { year: (d.year - 1) as i32, month: 12, day: 31 }
    }
}

/// The ISO week (week-based year and number) of a date.
pub open spec fn iso_week(d: Date) -> (i32, u32) {
    chrono_iso_week(d.year, d.month, d.day)
}

/// Whether `d` lies in the ISO week before the one of `today`: the week
/// before in the same week-based year, or, in week 1, the last week of the
/// year before (the week of its 28 December).
pub open spec fn in_last_week(d: Date, today: Date) -> bool {
    let (ty, tw) = iso_week(today);
    let (oy, ow) = iso_week(d);
    if tw > 1 {
        oy == ty && ow == tw - 1
    } else {
        valid_date(ty - 1, 12, 28) && oy == ty - 1 && ow == chrono_iso_week(
            (ty - 1) as i32,
            12,
            28,
        ).1
    }
}

/// Whether the preset period, taken on day `today`, holds the date `d`.
pub open spec fn period_contains(p: PresetPeriod, d: Date, today: Date) -> bool {
    match p {
        PresetPeriod::Today => d == today,
        PresetPeriod::Yesterday => d == previous_day(today),
        PresetPeriod::ThisWeek => iso_week(d) == iso_week(today),
        PresetPeriod::LastWeek => in_last_week(d, today),
        PresetPeriod::ThisMonth => d.year == today.year && d.month == today.month,
        PresetPeriod::LastMonth => {
            let (y, m) = previous_month(today.year as int, today.month as int);
            d.year == y && d.month == m
        },
        PresetPeriod::AllTime => true,
    }
}

/// This month holds exactly the dates of today's calendar month: the same
/// year and the same month. Today lies in this month; yesterday lies in this
/// month unless today is the first of the month, and then in last month.
/// Last month holds exactly what this month holds on any day of the month
/// before.
pub proof fn lemma_month_periods(d: Date, today: Date, other: Date)
    requires
        today.wf(),
        other.wf(),
    ensures
        period_contains(PresetPeriod::ThisMonth, d, today) <==> (d.year == today.year && d.month == today.month),
        period_contains(PresetPeriod::Today, d, today) ==> period_contains(PresetPeriod::ThisMonth, d, today),
        period_contains(PresetPeriod::Yesterday, d, today) ==> if today.day > 1 {
            period_contains(PresetPeriod::ThisMonth, d, today)
        } else {
            period_contains(PresetPeriod::LastMonth, d, today)
        },
        (other.year * 12 + other.month + 1 == today.year * 12 + today.month) ==> (period_contains(
            PresetPeriod::LastMonth,
            d,
            today,
        ) <==> period_contains(PresetPeriod::ThisMonth, d, other)),
{
}

/// A log that lies on a date lies within the range from that date to that
/// date: a range holds its first and its last day. Widening a range keeps
/// the logs it holds, and a log that starts on or after the range's first
/// day and ends (or goes on now) on its last day lies within it.
pub proof fn lemma_date_ranges(log: Log, start: Date, end: Date, wider_start: Date, wider_end: Date, now: i64)
    ensures
        on_date(log, start, now) ==> within_dates(log, start, start, now),
        start.spec_le(utc_date(log.starts_at)) && utc_date(end_or_now(log, now)) == end ==> within_dates(
            log,
            start,
            end,
            now,
        ),
        within_dates(log, start, end, now) && wider_start.spec_le(start) && end.spec_le(wider_end) ==> within_dates(
            log,
            wider_start,
            wider_end,
            now,
        ),
        within_dates(log, start, end, now) ==> start.spec_le(utc_date(log.starts_at)) && utc_date(
            end_or_now(log, now),
        ).spec_le(end),
{
}

fn previous_day_of(d: &Date) -> (r: Date)
    requires
        d.wf(),
    ensures
        r == previous_day(*d),
{
    if d.day > 1 {
        Date { year: d.year, month: d.month, day: d.day - 1 }
    } else if d.month > 1 {
        let m = d.month - 1;
        let leap = (d.year % 4 == 0 && d.year % 100 != 0) || d.year % 400 == 0;
        let dim: u32 = if m == 2 {
            if leap {
                29
            } else {
                28
            }
        } else if m == 4 || m == 6 || m == 9 || m == 11 {
            30
        } else {
            31
        };
        Date { year: d.year, month: m, day: dim }
    } else {
        Date { year: d.year - 1, month: 12, day: 31 }
    }
}

/// Whether the preset period, taken on day `today`, holds the date `d`.
pub fn preset_contains(p: &PresetPeriod, d: &Date, today: &Date) -> (r: bool)
    requires
        d.wf(),
        today.wf(),
    ensures
        r == period_contains(*p, *d, *today),
{
    match p {
        PresetPeriod::Today => {
            let r = *d == *today;
            assert(r == period_contains(*p, *d, *today));
            r
        },
        PresetPeriod::Yesterday => {
            let y = previous_day_of(today);
            let r = *d == y;
            assert(r == period_contains(*p, *d, *today));
            r
        },
        PresetPeriod::ThisWeek => {
            let (ay, aw) = iso_week_of(d);
            let (by, bw) = iso_week_of(today);
            let r = ay == by && aw == bw;
            assert(r == period_contains(*p, *d, *today));
            r
        },
        PresetPeriod::LastWeek => {
            let (ty, tw) = iso_week_of(today);
            let (oy, ow) = iso_week_of(d);
            if tw > 1 {
                oy == ty && ow == tw - 1
            } else if ty >= -262142 && ty <= 262143 {
                let dec28 = Date { year: ty - 1, month: 12, day: 28 };
                let (_, last) = iso_week_of(&dec28);
                oy == ty - 1 && ow == last
            } else {
                false
            }
        },
        PresetPeriod::ThisMonth => {
            let r = d.year == today.year && d.month == today.month;
            assert(r == period_contains(*p, *d, *today));
            r
        },
        PresetPeriod::LastMonth => {
            let r = if today.month > 1 {
                d.year == today.year && d.month == today.month - 1
            } else {
                d.year as i64 == today.year as i64 - 1 && d.month == 12
            };
            assert(r == period_contains(*p, *d, *today));
            r
        },
        PresetPeriod::AllTime => true,
    }
}

/// Whether the local date of a timestamp lies in the preset period today.
/// The local date and today depend on the clock and the time zone.
fn local_period_contains(p: &PresetPeriod, t: i64) -> (r: Option<bool>)
    requires
        ts_stored(t as int),
    ensures
        r matches Some(b) ==> exists|d: Date, today: Date|
            d.wf() && today.wf() && local_date_of(t as int, d) && b == period_contains(*p, d, today),
{
    let today = match local_today() {
        Some(d) => d,
        None => return None,
    };
    let f = local_date_time_of(t).unwrap();
    proof {
        lemma_local_date_of_fields(t as int, f);
    }
    Some(preset_contains(p, &f.date, &today))
}

/// Whether a timestamp falls on today's local date.
/// None when the system clock gives no usable instant.
pub fn is_today(t: i64) -> (r: Option<bool>)
    requires
        ts_stored(t as int),
    ensures
        r matches Some(b) ==> exists|d: Date, today: Date|
            d.wf() && today.wf() && local_date_of(t as int, d) && b == period_contains(
                PresetPeriod::Today,
                d,
                today,
            ),
{
    local_period_contains(&PresetPeriod::Today, t)
}

/// Whether a timestamp falls on yesterday's local date.
/// None when the system clock gives no usable instant.
pub fn is_yesterday(t: i64) -> (r: Option<bool>)
    requires
        ts_stored(t as int),
    ensures
        r matches Some(b) ==> exists|d: Date, today: Date|
            d.wf() && today.wf() && local_date_of(t as int, d) && b == period_contains(
                PresetPeriod::Yesterday,
                d,
                today,
            ),
{
    local_period_contains(&PresetPeriod::Yesterday, t)
}

/// Whether a timestamp falls in the current ISO week, locally.
/// None when the system clock gives no usable instant.
pub fn is_this_week(t: i64) -> (r: Option<bool>)
    requires
        ts_stored(t as int),
    ensures
        r matches Some(b) ==> exists|d: Date, today: Date|
            d.wf() && today.wf() && local_date_of(t as int, d) && b == period_contains(
                PresetPeriod::ThisWeek,
                d,
                today,
            ),
{
    local_period_contains(&PresetPeriod::ThisWeek, t)
}

/// Whether a timestamp falls in the previous ISO week, locally.
/// None when the system clock gives no usable instant.
pub fn is_last_week(t: i64) -> (r: Option<bool>)
    requires
        ts_stored(t as int),
    ensures
        r matches Some(b) ==> exists|d: Date, today: Date|
            d.wf() && today.wf() && local_date_of(t as int, d) && b == period_contains(
                PresetPeriod::LastWeek,
                d,
                today,
            ),
{
    local_period_contains(&PresetPeriod::LastWeek, t)
}

/// Whether a timestamp falls in the current month, locally.
/// None when the system clock gives no usable instant.
pub fn is_this_month(t: i64) -> (r: Option<bool>)
    requires
        ts_stored(t as int),
    ensures
        r matches Some(b) ==> exists|d: Date, today: Date|
            d.wf() && today.wf() && local_date_of(t as int, d) && b == period_contains(
                PresetPeriod::ThisMonth,
                d,
                today,
            ),
{
    local_period_contains(&PresetPeriod::ThisMonth, t)
}

/// Whether a timestamp falls in the previous month, locally.
/// None when the system clock gives no usable instant.
pub fn is_last_month(t: i64) -> (r: Option<bool>)
    requires
        ts_stored(t as int),
    ensures
        r matches Some(b) ==> exists|d: Date, today: Date|
            d.wf() && today.wf() && local_date_of(t as int, d) && b == period_contains(
                PresetPeriod::LastMonth,
                d,
                today,
            ),
{
    local_period_contains(&PresetPeriod::LastMonth, t)
}

/// The UTC date of a timestamp.
pub open spec fn utc_date(t: i64) -> Date {
    let x = chrono_utc_date(t);
    Date { year: x.0, month: x.1, day: x.2 }
}

/// The end of a log, or `now` while it goes on.
pub open spec fn end_or_now(log: Log, now: i64) -> i64 {
    match log.ends_at {
        Some(e) => e,
        None => now,
    }
}

/// A log starts and ends (or, open, goes on `now`) on the UTC date `date`.
pub open spec fn on_date(log: Log, date: Date, now: i64) -> bool {
    utc_date(log.starts_at) == date && utc_date(end_or_now(log, now)) == date
}

/// A log starts on or after `start` and ends (or goes on `now`) on or
/// before `end`, UTC dates.
pub open spec fn within_dates(log: Log, start: Date, end: Date, now: i64) -> bool {
    start.spec_le(utc_date(log.starts_at)) && utc_date(end_or_now(log, now)).spec_le(end)
}

/// Whether a log lies on a date, at instant `now`.
pub fn matches_date_at(log: &Log, date: &Date, now: i64) -> (r: bool)
    requires
        log.wf(),
        ts_in_range(now as int),
    ensures
        r == on_date(*log, *date, now),
{
    let s = utc_date_of(log.starts_at);
    let e = match log.ends_at {
        Some(x) => utc_date_of(x),
        None => utc_date_of(now),
    };
    s == *date && e == *date
}

/// Whether a log lies within a range of dates, at instant `now`.
pub fn matches_date_range_at(log: &Log, range_start: &Date, range_end: &Date, now: i64) -> (r: bool)
    requires
        log.wf(),
        ts_in_range(now as int),
    ensures
        r == within_dates(*log, *range_start, *range_end, now),
{
    let s = utc_date_of(log.starts_at);
    let e = match log.ends_at {
        Some(x) => utc_date_of(x),
        None => utc_date_of(now),
    };
    range_start.le(&s) && e.le(range_end)
}

/// Whether a log lies on a date; an open log is taken to go on now. None
/// when the system clock gives no usable instant.
pub fn matches_date(log: &Log, date: &Date) -> (r: Option<bool>)
    requires
        log.wf(),
    ensures
        r matches Some(b) ==> exists|now: Instant| now.wf() && b == on_date(*log, *date, now.secs),
{
    match utc_now() {
        Some(now) => Some(matches_date_at(log, date, now.secs)),
        None => None,
    }
}

/// Whether a log lies within a range of dates; an open log is taken to go on
/// now. None when the system clock gives no usable instant.
pub fn matches_date_range(log: &Log, range_start: &Date, range_end: &Date) -> (r: Option<bool>)
    requires
        log.wf(),
    ensures
        r matches Some(b) ==> exists|now: Instant|
            now.wf() && b == within_dates(*log, *range_start, *range_end, now.secs),
{
    match utc_now() {
        Some(now) => Some(matches_date_range_at(log, range_start, range_end, now.secs)),
        None => None,
    }
}

/// Whether a log matches a period: a preset holds its local start date, a
/// date or a range of dates holds it as `on_date` and `within_dates` say.
pub open spec fn matches_filter(log: Log, period: PeriodInput, today: Date, now: i64, local_start: Date) -> bool {
    match period {
        PeriodInput::Preset(p) => period_contains(p, local_start, today),
        PeriodInput::Single(d) => on_date(log, d, now),
        PeriodInput::Range { start, end, inclusive: _ } => within_dates(log, start, end, now),
    }
}

/// The verdict `r` on whether the instant `t` lies in the preset period: all
/// time holds every instant; another period is judged on some local date of
/// `t` and some valid date taken as today.
pub open spec fn preset_verdict(t: int, p: PresetPeriod, r: bool) -> bool {
    if p is AllTime {
        r
    } else {
        exists|d: Date, today: Date|
            d.wf() && today.wf() && local_date_of(t, d) && r == period_contains(p, d, today)
    }
}

/// Whether a log starts within a preset period, locally; none when a period
/// other than all time needs the system clock and it gives no usable
/// instant.
pub fn matches_period(log: &Log, period: &PresetPeriod) -> (r: Option<bool>)
    requires
        log.wf(),
    ensures
        *period is AllTime ==> r == Some(true),
        r matches Some(b) ==> preset_verdict(log.starts_at as int, *period, b),
{
    match period {
        PresetPeriod::AllTime => Some(true),
        _ => local_period_contains(period, log.starts_at),
    }
}

/// Whether a log matches a period: a preset as `matches_period` judges it,
/// a date or a range of dates by the UTC dates of its ends, an open log
/// taken to go on now. None when the system clock is needed and gives no
/// usable instant.
pub fn matches_period_filter(log: &Log, period_input: &PeriodInput) -> (r: Option<bool>)
    requires
        log.wf(),
    ensures
        *period_input == PeriodInput::Preset(PresetPeriod::AllTime) ==> r == Some(true),
        r matches Some(b) ==> match *period_input {
            PeriodInput::Preset(p) => preset_verdict(log.starts_at as int, p, b),
            PeriodInput::Single(d) => exists|now: Instant| now.wf() && b == on_date(*log, d, now.secs),
            PeriodInput::Range { start, end, inclusive: _ } => exists|now: Instant|
                now.wf() && b == within_dates(*log, start, end, now.secs),
        },
{
    match period_input {
        PeriodInput::Preset(p) => matches_period(log, p),
        PeriodInput::Single(date) => matches_date(log, date),
        PeriodInput::Range { start, end, inclusive: _ } => matches_date_range(log, start, end),
    }
}

} // verus!

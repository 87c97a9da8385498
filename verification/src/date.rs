use chrono::{Datelike, TimeZone, Timelike};
use vstd::prelude::*;

use crate::text::{
    digit_char, is_digit, lemma_digit_char_value, zeros,
    int_text, join, join_chars, nat_digits, pad_zeros, push_int, push_padded, push_str,
    string_from_chars, views,
};

verus! {

/// The earliest Unix timestamp that chrono's `DateTime<Utc>` can hold.
pub const CHRONO_MIN_TIMESTAMP: i64 = -8334601228800i64;

/// The latest Unix timestamp that chrono's `DateTime<Utc>` can hold.
pub const CHRONO_MAX_TIMESTAMP: i64 = 8210266876799i64;

/// The earliest stored timestamp: 0000-01-01 00:00:00 UTC. Stored times are
/// RFC 3339 texts, whose years have four digits.
pub const STORED_MIN_TIMESTAMP: i64 = -62167219200i64;

/// The latest stored timestamp: 9999-12-31 23:59:59 UTC.
pub const STORED_MAX_TIMESTAMP: i64 = 253402300799i64;

/// Whether `t` (seconds since the Unix epoch) is an instant chrono can hold.
pub open spec fn ts_in_range(t: int) -> bool {
    CHRONO_MIN_TIMESTAMP <= t <= CHRONO_MAX_TIMESTAMP
}

/// Whether `t` lies more than a day inside the range chrono can hold, so
/// that its date in any time zone is a date chrono can hold.
pub open spec fn ts_inner(t: int) -> bool {
    CHRONO_MIN_TIMESTAMP + 86400 <= t <= CHRONO_MAX_TIMESTAMP - 86400
}

/// Whether `t` is an instant of the years 0 to 9999, UTC.
pub open spec fn ts_stored(t: int) -> bool {
    STORED_MIN_TIMESTAMP <= t <= STORED_MAX_TIMESTAMP
}

/// A calendar date of the proleptic Gregorian calendar.
#[derive(Clone, Copy, Debug, PartialEq, Eq, Structural)]
pub struct Date {
    pub year: i32,
    pub month: u32,
    pub day: u32,
}

pub open spec fn is_leap_year(y: int) -> bool {
    (y % 4 == 0 && y % 100 != 0) || y % 400 == 0
}

pub open spec fn days_in_month(y: int, m: int) -> int {
    if m == 2 {
        if is_leap_year(y) {
            29
        } else {
            28
        }
    } else if m == 4 || m == 6 || m == 9 || m == 11 {
        30
    } else {
        31
    }
}

/// The days of a year before the first of month `m`.
pub open spec fn days_before_month(y: int, m: int) -> int {
    let base: int = if m <= 1 {
        0
    } else if m == 2 {
        31
    } else if m == 3 {
        59
    } else if m == 4 {
        90
    } else if m == 5 {
        120
    } else if m == 6 {
        151
    } else if m == 7 {
        181
    } else if m == 8 {
        212
    } else if m == 9 {
        243
    } else if m == 10 {
        273
    } else if m == 11 {
        304
    } else {
        334
    };
    base + if m > 2 && is_leap_year(y) {
        1int
    } else {
        0int
    }
}

/// The number of days from 1 January of the year 0 to the date, in the
/// proleptic Gregorian calendar (negative before it).
pub open spec fn day_number(d: Date) -> int {
    let y = d.year as int;
    365 * y + (y + 3) / 4 - (y + 99) / 100 + (y + 399) / 400 + days_before_month(y, d.month as int) + d.day - 1
}

/// The day number of 1 January 1970, the day of the Unix epoch.
pub open spec fn epoch_day() -> int {
    719528
}

/// The weekday of a date, from 0 for Monday to 6 for Sunday (1 January of
/// the year 0 was a Saturday).
pub open spec fn weekday(d: Date) -> int {
    (day_number(d) + 5) % 7
}

/// The first of January of a year.
pub open spec fn new_year(y: int) -> Date {
    Date { year: y as i32, month: 1, day: 1 }
}

/// The ISO week of a date: the week, Monday to Sunday, belongs to the year
/// that holds its Thursday, and is numbered from the week that holds that
/// year's first Thursday.
pub open spec fn is_iso_week(d: Date, w: (i32, u32)) -> bool {
    let thursday = day_number(d) - weekday(d) + 3;
    &&& day_number(new_year(w.0 as int)) <= thursday < day_number(new_year(w.0 + 1))
    &&& w.1 == (thursday - day_number(new_year(w.0 as int))) / 7 + 1
}

/// Month and day form a date of the calendar.
pub open spec fn calendar_valid(y: int, m: int, d: int) -> bool {
    1 <= m <= 12 && 1 <= d <= days_in_month(y, m)
}

/// A date that chrono's `NaiveDate` can hold.
pub open spec fn valid_date(y: int, m: int, d: int) -> bool {
    -262143 <= y <= 262142 && calendar_valid(y, m, d)
}

impl Date {
    pub open spec fn wf(self) -> bool {
        valid_date(self.year as int, self.month as int, self.day as int)
    }

    /// Chronological order of dates.
    pub open spec fn spec_le(self, other: Date) -> bool {
        ||| self.year < other.year
        ||| (self.year == other.year && self.month < other.month)
        ||| (self.year == other.year && self.month == other.month && self.day <= other.day)
    }

    /// Whether `self` is on or before `other`.
    pub fn le(&self, other: &Date) -> (r: bool)
        ensures
            r == self.spec_le(*other),
    {
        self.year < other.year || (self.year == other.year && self.month < other.month) || (
        self.year == other.year && self.month == other.month && self.day <= other.day)
    }
}

/// A date from the plain values of a parse result.
pub open spec fn date_of(t: Option<(i32, u32, u32)>) -> Option<Date> {
    match t {
        Some(v) => Some(Date { year: v.0, month: v.1, day: v.2 }),
        None => None,
    }
}

/// The date that chrono's `NaiveDate::parse_from_str(s, "%Y-%m-%d")` gives.
pub uninterp spec fn chrono_date_parse(s: Seq<char>) -> Option<(i32, u32, u32)>;

/// The ISO 8601 week-based year and week number of a date (chrono's `iso_week`).
pub uninterp spec fn chrono_iso_week(y: i32, m: u32, d: u32) -> (i32, u32);

/// The calendar date, in UTC, of a Unix timestamp (chrono's `date_naive`).
pub uninterp spec fn chrono_utc_date(t: i64) -> (i32, u32, u32);

/// `%Y` as chrono writes it: four digits at least, and a sign outside 0..=9999.
pub open spec fn year_text(y: int) -> Seq<char> {
    if 0 <= y <= 9999 {
        pad_zeros(nat_digits(y as nat), 4)
    } else if y < 0 {
        seq!['-'] + pad_zeros(nat_digits((-y) as nat), 4)
    } else {
        seq!['+'] + pad_zeros(nat_digits(y as nat), 4)
    }
}

/// A value below one hundred as two digits (`%m`, `%d`, `%H`, `%M`).
pub open spec fn two_digits(n: int) -> Seq<char> {
    pad_zeros(nat_digits(n as nat), 2)
}

/// A date as `%Y-%m-%d`.
pub open spec fn date_text(d: Date) -> Seq<char> {
    year_text(d.year as int) + seq!['-'] + two_digits(d.month as int) + seq!['-'] + two_digits(
        d.day as int,
    )
}

/// chrono's error for a text that does not parse.
#[verifier::external_type_specification]
#[verifier::external_body]
pub struct ExParseError(chrono::ParseError);

/// chrono's `NaiveDate::parse_from_str(s, "%Y-%m-%d")`: the date it reads,
/// which chrono only builds when it is a valid date, or chrono's error.
#[verifier::external_body]
pub(crate) fn chrono_parse_ymd(s: &str) -> (r: Result<Date, chrono::ParseError>)
    ensures
        match r {
            Ok(d) => chrono_date_parse(s@) == Some((d.year, d.month, d.day)) && d.wf(),
            Err(_) => chrono_date_parse(s@) is None,
        },
{
    match chrono::NaiveDate::parse_from_str(s, "%Y-%m-%d") {
        Ok(d) => Ok(Date { year: d.year(), month: d.month(), day: d.day() }),
        Err(e) => Err(e),
    }
}

/// The date that chrono's `NaiveDate::parse_from_str(s, "%Y-W%W-%u")` gives
/// (a year, a week counted from the year's first Monday, a weekday).
pub uninterp spec fn chrono_week_date_parse(s: Seq<char>) -> Option<(i32, u32, u32)>;

/// chrono's `NaiveDate::parse_from_str(s, "%Y-W%W-%u")`: the date it reads,
/// which chrono only builds when it is a valid date, or chrono's error.
#[verifier::external_body]
pub(crate) fn chrono_parse_week_date(s: &str) -> (r: Result<Date, chrono::ParseError>)
    ensures
        match r {
            Ok(d) => chrono_week_date_parse(s@) == Some((d.year, d.month, d.day)) && d.wf(),
            Err(_) => chrono_week_date_parse(s@) is None,
        },
{
    match chrono::NaiveDate::parse_from_str(s, "%Y-W%W-%u") {
        Ok(d) => Ok(Date { year: d.year(), month: d.month(), day: d.day() }),
        Err(e) => Err(e),
    }
}

/// chrono's `(a - b).num_days()` on two dates: the number of days from the
/// second date to the first.
#[verifier::external_body]
pub(crate) fn days_since(a: &Date, b: &Date) -> (r: i64)
    requires
        a.wf(),
        b.wf(),
    ensures
        r == day_number(*a) - day_number(*b),
{
    let x = chrono::NaiveDate::from_ymd_opt(a.year, a.month, a.day).unwrap();
    let y = chrono::NaiveDate::from_ymd_opt(b.year, b.month, b.day).unwrap();
    (x - y).num_days()
}

/// chrono's `NaiveDate::format("%Y-%m-%d")`: the year as `%Y` writes it,
/// month and day on two digits. chrono reads such a text back as the same
/// date; this is claimed for the years 0 to 9999 only.
#[verifier::external_body]
fn chrono_format_ymd(d: &Date) -> (r: String)
    requires
        d.wf(),
    ensures
        r@ == date_text(*d),
        0 <= d.year <= 9999 ==> chrono_date_parse(r@) == Some((d.year, d.month, d.day)),
{
    chrono::NaiveDate::from_ymd_opt(d.year, d.month, d.day).unwrap().format("%Y-%m-%d").to_string()
}

/// chrono's `NaiveDate::iso_week`: week-based year and week number, the
/// week numbered from 1 to 53, as ISO 8601 defines them.
#[verifier::external_body]
pub(crate) fn iso_week_of(d: &Date) -> (r: (i32, u32))
    requires
        d.wf(),
    ensures
        r == chrono_iso_week(d.year, d.month, d.day),
        is_iso_week(*d, r),
        1 <= r.1 <= 53,
{
    let w = chrono::NaiveDate::from_ymd_opt(d.year, d.month, d.day).unwrap().iso_week();
    (w.year(), w.week())
}

/// The UTC calendar date of a timestamp (chrono's `DateTime<Utc>::date_naive`).
#[verifier::external_body]
pub(crate) fn utc_date_of(t: i64) -> (r: Date)
    requires
        ts_in_range(t as int),
    ensures
        (r.year, r.month, r.day) == chrono_utc_date(t),
        r.wf(),
        day_number(r) == epoch_day() + t / 86400,
{
    let d = chrono::DateTime::from_timestamp(t, 0).unwrap().date_naive();
    Date { year: d.year(), month: d.month(), day: d.day() }
}

/// An instant: whole seconds since the Unix epoch and the nanoseconds past them.
#[derive(Clone, Copy, Debug, PartialEq, Eq, Structural)]
pub struct Instant {
    pub secs: i64,
    pub nanos: u32,
}

impl Instant {
    pub open spec fn wf(self) -> bool {
        ts_in_range(self.secs as int) && self.nanos < 1_000_000_000
    }
}

/// std's system time.
#[verifier::external_type_specification]
#[verifier::external_body]
pub struct ExSystemTime(std::time::SystemTime);

/// std's `SystemTime::now`: the system clock. What it reads is not stated.
#[verifier::external_body]
fn system_time_now() -> (r: std::time::SystemTime) {
    std::time::SystemTime::now()
}

/// std's `SystemTime::duration_since(UNIX_EPOCH)`: the whole seconds and the
/// nanoseconds past them since the Unix epoch, none for a time before it. Of
/// the duration only that its nanoseconds are under a second is stated.
#[verifier::external_body]
fn since_epoch(t: &std::time::SystemTime) -> (r: Option<(u64, u32)>)
    ensures
        r matches Some(d) ==> d.1 < 1_000_000_000,
{
    match t.duration_since(std::time::UNIX_EPOCH) {
        Ok(d) => Some((d.as_secs(), d.subsec_nanos())),
        Err(_) => None,
    }
}

/// The message when the system clock gives no instant that dates can hold.
pub open spec fn clock_error_text() -> Seq<char> {
    "the system clock is set before 1970 or beyond the dates that can be held"@
}

/// The message when the system clock gives no usable instant.
pub fn clock_error() -> (r: String)
    ensures
        r@ == clock_error_text(),
{
    String::from_str("the system clock is set before 1970 or beyond the dates that can be held")
}

/// The current time, read from the system clock; none when the clock is set
/// before the Unix epoch or beyond what chrono can hold. Which instant the
/// clock gives is not stated.
pub fn utc_now() -> (r: Option<Instant>)
    ensures
        r matches Some(i) ==> i.wf() && i.secs >= 0,
{
    let t = system_time_now();
    match since_epoch(&t) {
        Some((secs, nanos)) => {
            if secs <= CHRONO_MAX_TIMESTAMP as u64 {
                Some(Instant { secs: secs as i64, nanos })
            } else {
                None
            }
        },
        None => None,
    }
}

/// The wall clock of the current time in the local time zone; none when the
/// system clock gives no instant a day inside the dates that can be held.
pub fn local_now() -> (r: Option<DateTimeFields>)
    ensures
        r matches Some(f) ==> f.wf() && f.date.wf() && exists|now: Instant| now.wf() && #[trigger] local_fields_of(now.secs as int, f),
{
    let now = match utc_now() {
        Some(n) => n,
        None => return None,
    };
    if now.secs > CHRONO_MAX_TIMESTAMP - 86400 {
        return None;
    }
    match local_date_time_of(now.secs) {
        Some(f) => Some(f),
        None => None,
    }
}

/// Today's date in the local time zone: the local date of the current
/// time; none when the clock gives no instant a day inside the dates that
/// can be held.
pub fn local_today() -> (r: Option<Date>)
    ensures
        r matches Some(d) ==> d.wf() && exists|now: Instant| now.wf() && #[trigger] local_date_of(now.secs as int, d),
{
    let now = match utc_now() {
        Some(n) => n,
        None => return None,
    };
    if now.secs > CHRONO_MAX_TIMESTAMP - 86400 {
        return None;
    }
    let f = match local_date_time_of(now.secs) {
        Some(f) => f,
        None => return None,
    };
    proof {
        lemma_local_date_of_fields(now.secs as int, f);
    }
    Some(f.date)
}

/// Wall-clock fields of a date and time in some time zone.
#[derive(Clone, Copy, Debug, PartialEq, Eq, Structural)]
pub struct DateTimeFields {
    pub date: Date,
    pub hour: u32,
    pub minute: u32,
    pub second: u32,
}

impl DateTimeFields {
    pub open spec fn wf(self) -> bool {
        calendar_valid(self.date.year as int, self.date.month as int, self.date.day as int)
            && self.hour < 24 && self.minute < 60 && self.second < 60
    }
}

/// The wall-clock fields of an instant in UTC: chrono's calendar date of it
/// and its time of day.
pub open spec fn utc_fields(t: int) -> DateTimeFields {
    let x = chrono_utc_date(t as i64);
    let s = t % 86400;
    DateTimeFields {
        date: Date { year: x.0, month: x.1, day: x.2 },
        hour: (s / 3600) as u32,
        minute: (s % 3600 / 60) as u32,
        second: (s % 60) as u32,
    }
}

/// `f` is the wall clock of the instant `t` in a time zone whose offset from
/// UTC is under a day: the UTC wall clock of an instant less than a day
/// away.
#[verifier::opaque]
pub open spec fn local_fields_of(t: int, f: DateTimeFields) -> bool {
    exists|u: int| -86400 < u - t < 86400 && ts_in_range(u) && #[trigger] utc_fields(u) == f
}

/// `d` is the date of the instant `t` in a time zone whose offset from UTC
/// is under a day.
#[verifier::opaque]
pub open spec fn local_date_of(t: int, d: Date) -> bool {
    exists|u: int| -86400 < u - t < 86400 && ts_in_range(u) && #[trigger] utc_fields(u).date == d
}

/// The local date of wall-clock fields of an instant is a local date of it.
pub proof fn lemma_local_date_of_fields(t: int, f: DateTimeFields)
    requires
        local_fields_of(t, f),
    ensures
        local_date_of(t, f.date),
{
    reveal(local_fields_of);
    reveal(local_date_of);
    let u = choose|u: int| -86400 < u - t < 86400 && ts_in_range(u) && #[trigger] utc_fields(u) == f;
    assert(utc_fields(u).date == f.date);
}

/// The local wall-clock time of a timestamp (chrono's
/// `DateTime::from_timestamp(t, 0)` taken `with_timezone(&Local)`). It depends
/// on the machine's time zone: only that the fields form a valid time, that a
/// representable timestamp gets an answer, and, for a timestamp more than a
/// day inside chrono's range, that the fields are the UTC wall clock of the
/// timestamp moved by the zone's offset (under a day, as chrono's
/// `FixedOffset` is) and name a date chrono can hold. Which offset applies
/// is not stated.
#[verifier::external_body]
pub(crate) fn local_date_time_of(t: i64) -> (r: Option<DateTimeFields>)
    ensures
        ts_in_range(t as int) ==> r is Some,
        r matches Some(f) ==> f.wf(),
        r matches Some(f) ==> ts_inner(t as int) ==> f.date.wf() && local_fields_of(t as int, f),
{
    match chrono::DateTime::from_timestamp(t, 0) {
        Some(dt) => {
            let l = dt.with_timezone(&chrono::Local);
            let date = Date { year: l.year(), month: l.month(), day: l.day() };
            Some(DateTimeFields { date, hour: l.hour(), minute: l.minute(), second: l.second() })
        },
        None => None,
    }
}


/// Appends a year as `%Y` writes it.
pub(crate) fn push_year(out: &mut Vec<char>, y: i32)
    ensures
        final(out)@ == old(out)@ + year_text(y as int),
{
    if 0 <= y && y <= 9999 {
        push_padded(out, y as u64, 4);
    } else if y < 0 {
        out.push('-');
        let m: u64 = ((-(y as i64)) as u64);
        let ghost mid = out@;
        push_padded(out, m, 4);
        assert(out@ == old(out)@ + (seq!['-'] + pad_zeros(nat_digits(m as nat), 4)));
    } else {
        out.push('+');
        let ghost mid = out@;
        push_padded(out, y as u64, 4);
        assert(out@ == old(out)@ + (seq!['+'] + pad_zeros(nat_digits(y as nat), 4)));
    }
}

/// Appends a date as `%Y-%m-%d`.
pub(crate) fn push_date(out: &mut Vec<char>, d: &Date)
    requires
        d.month < 100 && d.day < 100,
    ensures
        final(out)@ == old(out)@ + date_text(*d),
{
    push_year(out, d.year);
    out.push('-');
    push_padded(out, d.month as u64, 2);
    out.push('-');
    push_padded(out, d.day as u64, 2);
    assert(out@ =~= old(out)@ + date_text(*d));
}

/// The message of a date that does not parse.
pub open spec fn invalid_date_text(s: Seq<char>) -> Seq<char> {
    "invalid date '"@ + s + "', expected format YYYY-MM-DD"@
}

/// Parses a `YYYY-MM-DD` date the way chrono's `%Y-%m-%d` reads it.
pub fn parse_date(s: &str) -> (r: Result<Date, String>)
    ensures
        match r {
            Ok(d) => chrono_date_parse(s@) == Some((d.year, d.month, d.day)) && d.wf(),
            Err(e) => chrono_date_parse(s@) is None && e@ == invalid_date_text(s@),
        },
{
    match chrono_parse_ymd(s) {
        Ok(d) => Ok(d),
        Err(_) => {
            let mut v: Vec<char> = Vec::new();
            push_str(&mut v, "invalid date '");
            push_str(&mut v, s);
            push_str(&mut v, "', expected format YYYY-MM-DD");
            assert(v@ =~= invalid_date_text(s@));
            Err(string_from_chars(&v))
        },
    }
}

/// How dates and times are written out.
#[derive(Clone, Copy, Debug, PartialEq, Eq, Structural)]
pub enum DateTimeRenderMode {
    TimeOnly,
    DateOnly,
    DateAndTime,
}

/// A time of day as `%H:%M`.
pub open spec fn time_text(f: DateTimeFields) -> Seq<char> {
    two_digits(f.hour as int) + seq![':'] + two_digits(f.minute as int)
}

/// Wall-clock fields written out in a render mode.
pub open spec fn date_time_text(mode: DateTimeRenderMode, f: DateTimeFields) -> Seq<char> {
    match mode {
        DateTimeRenderMode::TimeOnly => time_text(f),
        DateTimeRenderMode::DateOnly => date_text(f.date),
        DateTimeRenderMode::DateAndTime => date_text(f.date) + seq![' '] + time_text(f),
    }
}

impl DateTimeRenderMode {
    /// Writes a date; only the date-only mode applies to a date without a
    /// time (chrono fails to write a time of day from a bare date).
    pub fn render_naive_date(&self, dt: &Date) -> (r: String)
        requires
            *self == DateTimeRenderMode::DateOnly,
            dt.wf(),
        ensures
            r@ == date_text(*dt),
            0 <= dt.year <= 9999 ==> chrono_date_parse(r@) == Some((dt.year, dt.month, dt.day)),
    {
        chrono_format_ymd(dt)
    }

    /// Writes the wall-clock fields of a date and time.
    pub fn render_date_time(&self, dt: &DateTimeFields) -> (r: String)
        requires
            dt.wf(),
        ensures
            r@ == date_time_text(*self, *dt),
    {
        let mut v: Vec<char> = Vec::new();
        match self {
            DateTimeRenderMode::TimeOnly => {
                push_padded(&mut v, dt.hour as u64, 2);
                v.push(':');
                push_padded(&mut v, dt.minute as u64, 2);
            },
            DateTimeRenderMode::DateOnly => {
                push_date(&mut v, &dt.date);
            },
            DateTimeRenderMode::DateAndTime => {
                push_date(&mut v, &dt.date);
                v.push(' ');
                push_padded(&mut v, dt.hour as u64, 2);
                v.push(':');
                push_padded(&mut v, dt.minute as u64, 2);
            },
        }
        assert(v@ =~= date_time_text(*self, *dt));
        string_from_chars(&v)
    }
}

/// Integer division rounding toward zero, as Rust's `/` on integers.
pub open spec fn tdiv(x: int, d: int) -> int {
    if x >= 0 {
        x / d
    } else {
        -((-x) / d)
    }
}

/// The remainder that goes with `tdiv`, as Rust's `%` on integers.
pub open spec fn trem(x: int, d: int) -> int {
    if x >= 0 {
        x % d
    } else {
        -((-x) % d)
    }
}

/// The words of a duration: hours and minutes when non-zero, seconds when
/// both are zero; long or short unit names.
pub open spec fn duration_parts(seconds: int, long_format: bool) -> Seq<Seq<char>> {
    let h = tdiv(seconds, 3600);
    let r = trem(seconds, 3600);
    let m = tdiv(r, 60);
    let s = trem(r, 60);
    let hp = if h > 0 {
        seq![int_text(h) + if long_format { " hours"@ } else { "h"@ }]
    } else {
        Seq::<Seq<char>>::empty()
    };
    let mp = if m > 0 {
        seq![int_text(m) + if long_format { " minutes"@ } else { "m"@ }]
    } else {
        Seq::<Seq<char>>::empty()
    };
    let sp = if h == 0 && m == 0 {
        seq![int_text(s) + if long_format { " seconds"@ } else { "s"@ }]
    } else {
        Seq::<Seq<char>>::empty()
    };
    hp + mp + sp
}

/// A number followed by a unit name.
fn number_with_unit(n: i64, unit: &str) -> (r: Vec<char>)
    ensures
        r@ == int_text(n as int) + unit@,
{
    let mut v: Vec<char> = Vec::new();
    push_int(&mut v, n);
    push_str(&mut v, unit);
    v
}

/// A duration in seconds as hours and minutes, or as seconds when shorter
/// than a minute, e.g. `1h 1m` or `1 hours 1 minutes`.
pub fn pretty_format_duration(seconds: i64, long_format: bool) -> (r: String)
    ensures
        r@ == join(duration_parts(seconds as int, long_format), " "@),
{
    let hours = seconds.checked_div(3600).unwrap();
    let rest = seconds.checked_rem(3600).unwrap();
    let minutes = rest.checked_div(60).unwrap();
    let secs = rest.checked_rem(60).unwrap();
    let mut parts: Vec<Vec<char>> = Vec::new();
    if hours > 0 {
        parts.push(number_with_unit(hours, if long_format { " hours" } else { "h" }));
    }
    if minutes > 0 {
        parts.push(number_with_unit(minutes, if long_format { " minutes" } else { "m" }));
    }
    if hours == 0 && minutes == 0 {
        parts.push(number_with_unit(secs, if long_format { " seconds" } else { "s" }));
    }
    assert(views(parts@) =~= duration_parts(seconds as int, long_format));
    let joined = join_chars(&parts, " ");
    string_from_chars(&joined)
}

/// The words of a duration of at least a minute: hours when non-zero, then
/// minutes.
pub open spec fn minute_parts(seconds: int) -> Seq<Seq<char>> {
    let h = seconds / 3600;
    let m = (seconds - h * 3600) / 60;
    let mp = seq![int_text(m) + "m"@];
    if h > 0 {
        seq![int_text(h) + "h"@] + mp
    } else {
        mp
    }
}

/// The compact form of a duration: seconds below a minute, else hours and
/// minutes, e.g. `42s`, `1m`, `1h 1m`.
pub open spec fn compact_duration_text(seconds: int) -> Seq<char> {
    if seconds < 60 {
        int_text(seconds) + "s"@
    } else {
        join(minute_parts(seconds), " "@)
    }
}

/// Writes a duration in seconds compactly.
pub fn format_duration(seconds: i64) -> (r: String)
    ensures
        r@ == compact_duration_text(seconds as int),
{
    if seconds < 60 {
        let v = number_with_unit(seconds, "s");
        return string_from_chars(&v);
    }
    let hours = seconds / 3600;
    let rest = seconds - hours * 3600;
    let minutes = rest / 60;
    let mut parts: Vec<Vec<char>> = Vec::new();
    if hours > 0 {
        parts.push(number_with_unit(hours, "h"));
    }
    parts.push(number_with_unit(minutes, "m"));
    assert(views(parts@) =~= minute_parts(seconds as int));
    let joined = join_chars(&parts, " ");
    string_from_chars(&joined)
}


/// A character that a written date can hold: a digit or a sign.
pub open spec fn date_char(c: char) -> bool {
    is_digit(c) || c == '-' || c == '+'
}

proof fn lemma_nat_digits_chars(n: nat)
    ensures
        nat_digits(n).len() > 0,
        forall|i: int| 0 <= i < nat_digits(n).len() ==> is_digit(#[trigger] nat_digits(n)[i]),
    decreases n,
{
    if n >= 10 {
        lemma_nat_digits_chars(n / 10);
    }
}

pub proof fn lemma_padded_digits_chars(n: nat, w: nat)
    ensures
        pad_zeros(nat_digits(n), w).len() > 0,
        forall|i: int|
            0 <= i < pad_zeros(nat_digits(n), w).len() ==> is_digit(
                #[trigger] pad_zeros(nat_digits(n), w)[i],
            ),
{
    lemma_nat_digits_chars(n);
    let d = nat_digits(n);
    if d.len() < w {
        let z = zeros((w - d.len()) as nat);
        assert forall|i: int| 0 <= i < (z + d).len() implies is_digit(#[trigger] (z + d)[i]) by {
            if i < z.len() {
                assert((z + d)[i] == '0');
            } else {
                assert((z + d)[i] == d[i - z.len()]);
            }
        }
    }
}

/// Every character of a written date is a digit or a sign, and the text is
/// not empty.
pub proof fn lemma_date_text_chars(d: Date)
    ensures
        date_text(d).len() > 0,
        forall|i: int| 0 <= i < date_text(d).len() ==> date_char(#[trigger] date_text(d)[i]),
{
    let y = d.year as int;
    lemma_padded_digits_chars(d.month as nat, 2);
    lemma_padded_digits_chars(d.day as nat, 2);
    let yt = year_text(y);
    if 0 <= y <= 9999 {
        lemma_padded_digits_chars(y as nat, 4);
    } else if y < 0 {
        lemma_padded_digits_chars((-y) as nat, 4);
    } else {
        lemma_padded_digits_chars(y as nat, 4);
    }
    assert forall|i: int| 0 <= i < yt.len() implies date_char(#[trigger] yt[i]) by {
        if 0 <= y <= 9999 {
        } else if y < 0 {
            let p = pad_zeros(nat_digits((-y) as nat), 4);
            if i > 0 {
                assert(yt[i] == p[i - 1]);
            }
        } else {
            let p = pad_zeros(nat_digits(y as nat), 4);
            if i > 0 {
                assert(yt[i] == p[i - 1]);
            }
        }
    }
    let m = two_digits(d.month as int);
    let dd = two_digits(d.day as int);
    let t = yt + seq!['-'] + m + seq!['-'] + dd;
    assert(t == date_text(d));
    assert forall|i: int| 0 <= i < t.len() implies date_char(#[trigger] t[i]) by {
        if i < yt.len() {
            assert(t[i] == yt[i]);
        } else if i == yt.len() {
        } else if i < yt.len() + 1 + m.len() {
            assert(t[i] == m[i - yt.len() - 1]);
        } else if i == yt.len() + 1 + m.len() {
        } else {
            assert(t[i] == dd[i - yt.len() - 2 - m.len()]);
        }
    }
}


/// A date and time as `%Y-%m-%d %H:%M` writes it is made of digits, signs,
/// a space and a colon; it starts with a digit or a sign and ends with a
/// digit.
pub proof fn lemma_date_time_text_chars(f: DateTimeFields)
    ensures
        date_time_text(DateTimeRenderMode::DateAndTime, f).len() > 0,
        date_char(date_time_text(DateTimeRenderMode::DateAndTime, f)[0]),
        is_digit(date_time_text(DateTimeRenderMode::DateAndTime, f).last()),
        forall|i: int|
            0 <= i < date_time_text(DateTimeRenderMode::DateAndTime, f).len() ==> date_char(
                #[trigger] date_time_text(DateTimeRenderMode::DateAndTime, f)[i],
            ) || date_time_text(DateTimeRenderMode::DateAndTime, f)[i] == ' '
                || date_time_text(DateTimeRenderMode::DateAndTime, f)[i] == ':',
{
    let t = date_time_text(DateTimeRenderMode::DateAndTime, f);
    let d = date_text(f.date);
    let h = two_digits(f.hour as int);
    let m = two_digits(f.minute as int);
    lemma_date_text_chars(f.date);
    lemma_padded_digits_chars(f.hour as nat, 2);
    lemma_padded_digits_chars(f.minute as nat, 2);
    assert(t == d + seq![' '] + (h + seq![':'] + m));
    assert(t.last() == m.last());
    assert(t[0] == d[0]);
    assert forall|i: int| 0 <= i < t.len() implies date_char(#[trigger] t[i]) || t[i] == ' ' || t[i] == ':' by {
        if i < d.len() {
            assert(t[i] == d[i]);
        } else if i == d.len() {
        } else if i < d.len() + 1 + h.len() {
            assert(t[i] == h[i - d.len() - 1]);
        } else if i == d.len() + 1 + h.len() {
        } else {
            assert(t[i] == m[i - d.len() - 2 - h.len()]);
        }
    }
}

/// A value below one hundred is written as its tens and its units.
proof fn lemma_two_digits(n: int)
    requires
        0 <= n < 100,
    ensures
        two_digits(n) == seq![digit_char(n / 10), digit_char(n % 10)],
{
    if n < 10 {
        assert(nat_digits(n as nat) == seq![digit_char(n)]);
        assert(zeros(1) =~= seq![digit_char(0)]);
        assert(two_digits(n) =~= seq![digit_char(n / 10), digit_char(n % 10)]);
    } else {
        assert(nat_digits((n / 10) as nat) == seq![digit_char(n / 10)]);
        assert(nat_digits(n as nat) == nat_digits((n / 10) as nat).push(digit_char(n % 10)));
        assert(two_digits(n) =~= seq![digit_char(n / 10), digit_char(n % 10)]);
    }
}

/// A year of four digits is written digit by digit.
proof fn lemma_four_digit_year(n: int)
    requires
        0 <= n < 10000,
    ensures
        year_text(n) == seq![digit_char(n / 1000), digit_char(n / 100 % 10), digit_char(n / 10 % 10), digit_char(n % 10)],
{
    let d = nat_digits(n as nat);
    if n < 10 {
        assert(d == seq![digit_char(n)]);
        assert(zeros(3) =~= seq![digit_char(0), digit_char(0), digit_char(0)]);
    } else if n < 100 {
        assert(nat_digits((n / 10) as nat) == seq![digit_char(n / 10)]);
        assert(d == nat_digits((n / 10) as nat).push(digit_char(n % 10)));
        assert(zeros(2) =~= seq![digit_char(0), digit_char(0)]);
    } else if n < 1000 {
        assert(nat_digits((n / 100) as nat) == seq![digit_char(n / 100)]);
        assert(nat_digits((n / 10) as nat) == nat_digits((n / 100) as nat).push(digit_char(n / 10 % 10)));
        assert(d == nat_digits((n / 10) as nat).push(digit_char(n % 10)));
        assert(zeros(1) =~= seq![digit_char(0)]);
    } else {
        assert(nat_digits((n / 1000) as nat) == seq![digit_char(n / 1000)]);
        assert(nat_digits((n / 100) as nat) == nat_digits((n / 1000) as nat).push(digit_char(n / 100 % 10)));
        assert(nat_digits((n / 10) as nat) == nat_digits((n / 100) as nat).push(digit_char(n / 10 % 10)));
        assert(d == nat_digits((n / 10) as nat).push(digit_char(n % 10)));
    }
    assert(year_text(n) =~= seq![digit_char(n / 1000), digit_char(n / 100 % 10), digit_char(n / 10 % 10), digit_char(n % 10)]);
}

/// The fields to the minute: the seconds set to zero.
pub open spec fn minute_of(f: DateTimeFields) -> DateTimeFields {
    DateTimeFields { second: 0, ..f }
}

/// `s` is valid fields of a year from 0 to 9999 written as
/// `%Y-%m-%d %H:%M`.
pub open spec fn written_minutes(s: Seq<char>, f: DateTimeFields) -> bool {
    &&& f.wf()
    &&& f.date.wf()
    &&& 0 <= f.date.year <= 9999
    &&& s == date_time_text(DateTimeRenderMode::DateAndTime, f)
}

proof fn lemma_digit_char_injective(a: int, b: int)
    requires
        0 <= a < 10,
        0 <= b < 10,
        digit_char(a) == digit_char(b),
    ensures
        a == b,
{
    lemma_digit_char_value(a);
    lemma_digit_char_value(b);
}

proof fn lemma_year_text_injective(a: int, b: int)
    requires
        0 <= a < 10000,
        0 <= b < 10000,
        year_text(a) == year_text(b),
    ensures
        a == b,
{
    lemma_four_digit_year(a);
    lemma_four_digit_year(b);
    assert(year_text(a)[0] == year_text(b)[0]);
    assert(year_text(a)[1] == year_text(b)[1]);
    assert(year_text(a)[2] == year_text(b)[2]);
    assert(year_text(a)[3] == year_text(b)[3]);
    lemma_digit_char_injective(a / 1000, b / 1000);
    lemma_digit_char_injective(a / 100 % 10, b / 100 % 10);
    lemma_digit_char_injective(a / 10 % 10, b / 10 % 10);
    lemma_digit_char_injective(a % 10, b % 10);
    assert(a == b) by (nonlinear_arith)
        requires
            0 <= a < 10000,
            0 <= b < 10000,
            a / 1000 == b / 1000,
            a / 100 % 10 == b / 100 % 10,
            a / 10 % 10 == b / 10 % 10,
            a % 10 == b % 10,
    ;
}

proof fn lemma_two_digits_injective(a: int, b: int)
    requires
        0 <= a < 100,
        0 <= b < 100,
        two_digits(a) == two_digits(b),
    ensures
        a == b,
{
    lemma_two_digits(a);
    lemma_two_digits(b);
    assert(two_digits(a)[0] == two_digits(b)[0]);
    assert(two_digits(a)[1] == two_digits(b)[1]);
    lemma_digit_char_injective(a / 10, b / 10);
    lemma_digit_char_injective(a % 10, b % 10);
}

/// The parts of a written date and time to the minute, at their places.
proof fn lemma_written_minutes_parts(s: Seq<char>, f: DateTimeFields)
    requires
        written_minutes(s, f),
    ensures
        s.len() == 16,
        s.subrange(0, 4) == year_text(f.date.year as int),
        s.subrange(5, 7) == two_digits(f.date.month as int),
        s.subrange(8, 10) == two_digits(f.date.day as int),
        s.subrange(11, 13) == two_digits(f.hour as int),
        s.subrange(14, 16) == two_digits(f.minute as int),
{
    lemma_four_digit_year(f.date.year as int);
    lemma_two_digits(f.date.month as int);
    lemma_two_digits(f.date.day as int);
    lemma_two_digits(f.hour as int);
    lemma_two_digits(f.minute as int);
    assert(s.subrange(0, 4) =~= year_text(f.date.year as int));
    assert(s.subrange(5, 7) =~= two_digits(f.date.month as int));
    assert(s.subrange(8, 10) =~= two_digits(f.date.day as int));
    assert(s.subrange(11, 13) =~= two_digits(f.hour as int));
    assert(s.subrange(14, 16) =~= two_digits(f.minute as int));
}

/// A written date and time to the minute names one date and time.
pub proof fn lemma_written_minutes_unique(s: Seq<char>, f: DateTimeFields, g: DateTimeFields)
    requires
        written_minutes(s, f),
        written_minutes(s, g),
    ensures
        minute_of(f) == minute_of(g),
{
    lemma_written_minutes_parts(s, f);
    lemma_written_minutes_parts(s, g);
    lemma_year_text_injective(f.date.year as int, g.date.year as int);
    lemma_two_digits_injective(f.date.month as int, g.date.month as int);
    lemma_two_digits_injective(f.date.day as int, g.date.day as int);
    lemma_two_digits_injective(f.hour as int, g.hour as int);
    lemma_two_digits_injective(f.minute as int, g.minute as int);
}

/// What reading a date and time to the minute gives: for a text written
/// from fields of a year from 0 to 9999, those fields with zero seconds;
/// otherwise what chrono reads.
pub open spec fn minutes_read(s: Seq<char>) -> Option<DateTimeFields> {
    if exists|f: DateTimeFields| written_minutes(s, f) {
        Some(minute_of(choose|f: DateTimeFields| written_minutes(s, f)))
    } else {
        date_time_of(chrono_date_time_parse(s))
    }
}

/// Text written from fields reads back as those fields, to the minute.
pub proof fn lemma_minutes_read_written(s: Seq<char>, f: DateTimeFields)
    requires
        written_minutes(s, f),
    ensures
        minutes_read(s) == Some(minute_of(f)),
{
    let g = choose|g: DateTimeFields| written_minutes(s, g);
    lemma_written_minutes_unique(s, f, g);
}

/// Wall-clock fields from the plain values of a parse result, seconds zero.
pub open spec fn date_time_of(t: Option<(i32, u32, u32, u32, u32)>) -> Option<DateTimeFields> {
    match t {
        Some(v) => Some(
            DateTimeFields {
                date: Date { year: v.0, month: v.1, day: v.2 },
                hour: v.3,
                minute: v.4,
                second: 0,
            },
        ),
        None => None,
    }
}

/// The date and time that chrono's `NaiveDateTime::parse_from_str(s, "%Y-%m-%d %H:%M")`
/// gives: year, month, day, hour and minute.
pub uninterp spec fn chrono_date_time_parse(s: Seq<char>) -> Option<(i32, u32, u32, u32, u32)>;

/// chrono's `NaiveDateTime::parse_from_str(s, "%Y-%m-%d %H:%M")`: the date and
/// time it reads, which chrono only builds when they are valid; the seconds
/// are zero. Of a text that chrono's own `%Y-%m-%d %H:%M` wrote from valid
/// fields of a year from 0 to 9999 (four digits, no sign), it reads those
/// fields back: each number is read up to its width, the literals match and
/// the space is skipped.
#[verifier::external_body]
fn parse_date_time_minutes(s: &str) -> (r: Option<DateTimeFields>)
    ensures
        r == date_time_of(chrono_date_time_parse(s@)),
        r matches Some(f) ==> f.wf() && f.date.wf(),
        forall|f: DateTimeFields| #[trigger] written_minutes(s@, f) ==> r == Some(minute_of(f)),
{
    match chrono::NaiveDateTime::parse_from_str(s, "%Y-%m-%d %H:%M") {
        Ok(t) => Some(
            DateTimeFields {
                date: Date { year: t.year(), month: t.month(), day: t.day() },
                hour: t.hour(),
                minute: t.minute(),
                second: t.second(),
            },
        ),
        Err(_) => None,
    }
}

/// Reads a date and time to the minute, as `minutes_read` says.
pub(crate) fn read_minutes(s: &str) -> (r: Option<DateTimeFields>)
    ensures
        r == minutes_read(s@),
        r matches Some(f) ==> f.wf() && f.date.wf(),
{
    let r = parse_date_time_minutes(s);
    proof {
        if exists|f: DateTimeFields| written_minutes(s@, f) {
            let g = choose|f: DateTimeFields| written_minutes(s@, f);
            assert(written_minutes(s@, g));
        }
    }
    r
}

/// The timestamp of a local wall-clock time (chrono's
/// `Local.from_local_datetime(..).single()`), none when the time zone makes
/// that time missing or ambiguous. It depends on the machine's time zone:
/// only that an answer is an instant chrono can hold whose wall clock, moved
/// by an offset under a day, is the given time is stated; which offset
/// applies, and when an answer is missing, is not.
#[verifier::external_body]
pub(crate) fn local_to_timestamp(f: &DateTimeFields) -> (r: Option<i64>)
    requires
        f.wf(),
        f.date.wf(),
    ensures
        r matches Some(t) ==> ts_in_range(t as int) && local_fields_of(t as int, *f),
{
    let d = chrono::NaiveDate::from_ymd_opt(f.date.year, f.date.month, f.date.day).unwrap();
    let t = d.and_hms_opt(f.hour, f.minute, f.second).unwrap();
    match chrono::Local.from_local_datetime(&t).single() {
        Some(dt) => Some(dt.timestamp()),
        None => None,
    }
}

} // verus!

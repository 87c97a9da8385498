use vstd::prelude::*;

use crate::date::{
    date_char, lemma_date_text_chars,
    chrono_date_parse, date_of, date_text, local_today, parse_date, year_text, two_digits, Date,
    DateTimeRenderMode,
};
use crate::text::{
    int_text, push_int,
    ascii_lower, chars_eq_str, chars_of, is_ascii_text, lemma_ascii_lower_identity,
    nat_digits, no_ascii_upper, pad_zeros, push_str, slice_chars, std_to_lowercase,
    string_from_chars, string_of, to_lowercase, zeros,
};

verus! {

/// A named period relative to today.
#[derive(Clone, Copy, Debug, PartialEq, Eq, Structural)]
pub enum PresetPeriod {
    Today,
    Yesterday,
    ThisWeek,
    LastWeek,
    ThisMonth,
    LastMonth,
    AllTime,
}

impl Default for PresetPeriod {
    fn default() -> (r: Self)
        ensures
            r == PresetPeriod::AllTime,
    {
        PresetPeriod::AllTime
    }
}

/// The name a preset period is written with.
pub open spec fn preset_text(p: PresetPeriod) -> Seq<char> {
    match p {
        PresetPeriod::Today => "today"@,
        PresetPeriod::Yesterday => "yesterday"@,
        PresetPeriod::ThisWeek => "this-week"@,
        PresetPeriod::LastWeek => "last-week"@,
        PresetPeriod::ThisMonth => "this-month"@,
        PresetPeriod::LastMonth => "last-month"@,
        PresetPeriod::AllTime => "all-time"@,
    }
}

/// The preset period that a lower-case name or alias stands for.
pub open spec fn preset_of(s: Seq<char>) -> Option<PresetPeriod> {
    if s == "today"@ || s == "td"@ || s == "tod"@ {
        Some(PresetPeriod::Today)
    } else if s == "yesterday"@ || s == "yd"@ || s == "ytd"@ {
        Some(PresetPeriod::Yesterday)
    } else if s == "this-week"@ || s == "tw"@ || s == "twk"@ || s == "wk"@ {
        Some(PresetPeriod::ThisWeek)
    } else if s == "last-week"@ || s == "lw"@ || s == "lwk"@ || s == "yesterweek"@ || s == "yw"@
        || s == "ywk"@ {
        Some(PresetPeriod::LastWeek)
    } else if s == "this-month"@ || s == "tm"@ || s == "tmo"@ || s == "mo"@ {
        Some(PresetPeriod::ThisMonth)
    } else if s == "last-month"@ || s == "lm"@ || s == "lmo"@ || s == "yestermonth"@ || s == "ym"@
        || s == "ymo"@ {
        Some(PresetPeriod::LastMonth)
    } else if s == "all-time"@ || s == "all"@ {
        Some(PresetPeriod::AllTime)
    } else {
        None
    }
}

fn preset_of_chars(v: &Vec<char>) -> (r: Option<PresetPeriod>)
    ensures
        r == preset_of(v@),
{
    if chars_eq_str(v, "today") || chars_eq_str(v, "td") || chars_eq_str(v, "tod") {
        Some(PresetPeriod::Today)
    } else if chars_eq_str(v, "yesterday") || chars_eq_str(v, "yd") || chars_eq_str(v, "ytd") {
        Some(PresetPeriod::Yesterday)
    } else if chars_eq_str(v, "this-week") || chars_eq_str(v, "tw") || chars_eq_str(v, "twk")
        || chars_eq_str(v, "wk") {
        Some(PresetPeriod::ThisWeek)
    } else if chars_eq_str(v, "last-week") || chars_eq_str(v, "lw") || chars_eq_str(v, "lwk")
        || chars_eq_str(v, "yesterweek") || chars_eq_str(v, "yw") || chars_eq_str(v, "ywk") {
        Some(PresetPeriod::LastWeek)
    } else if chars_eq_str(v, "this-month") || chars_eq_str(v, "tm") || chars_eq_str(v, "tmo")
        || chars_eq_str(v, "mo") {
        Some(PresetPeriod::ThisMonth)
    } else if chars_eq_str(v, "last-month") || chars_eq_str(v, "lm") || chars_eq_str(v, "lmo")
        || chars_eq_str(v, "yestermonth") || chars_eq_str(v, "ym") || chars_eq_str(v, "ymo") {
        Some(PresetPeriod::LastMonth)
    } else if chars_eq_str(v, "all-time") || chars_eq_str(v, "all") {
        Some(PresetPeriod::AllTime)
    } else {
        None
    }
}

impl PresetPeriod {
    /// The name of the preset, e.g. `this-week`.
    pub fn to_string(&self) -> (r: String)
        ensures
            r@ == preset_text(*self),
    {
        let s = match self {
            PresetPeriod::Today => "today",
            PresetPeriod::Yesterday => "yesterday",
            PresetPeriod::ThisWeek => "this-week",
            PresetPeriod::LastWeek => "last-week",
            PresetPeriod::ThisMonth => "this-month",
            PresetPeriod::LastMonth => "last-month",
            PresetPeriod::AllTime => "all-time",
        };
        string_of(s)
    }
}

/// Whether a `..` starts at index `i`.
pub open spec fn dots_at(s: Seq<char>, i: int) -> bool {
    0 <= i && i + 1 < s.len() && s[i] == '.' && s[i + 1] == '.'
}

/// Whether the first `..` of `s` starts at `i`.
pub open spec fn is_first_dots(s: Seq<char>, i: int) -> bool {
    dots_at(s, i) && forall|j: int| 0 <= j < i ==> !dots_at(s, j)
}

/// Where `str::split_once("..")` splits `s`.
pub open spec fn split_dots(s: Seq<char>) -> Option<int> {
    if exists|i: int| is_first_dots(s, i) {
        Some(choose|i: int| is_first_dots(s, i))
    } else {
        None
    }
}

proof fn lemma_first_dots_unique(s: Seq<char>, i: int)
    requires
        is_first_dots(s, i),
    ensures
        split_dots(s) == Some(i),
{
    let k = choose|k: int| is_first_dots(s, k);
    assert(is_first_dots(s, k));
    if k < i {
        assert(!dots_at(s, k));
    }
    if i < k {
        assert(!dots_at(s, i));
    }
}

fn find_dots(v: &Vec<char>) -> (r: Option<usize>)
    ensures
        match r {
            Some(i) => split_dots(v@) == Some(i as int) && i + 1 < v.len(),
            None => split_dots(v@) is None,
        },
{
    let mut i: usize = 0;
    while i < v.len() && i + 1 < v.len()
        invariant
            i <= v.len(),
            forall|j: int| 0 <= j < i ==> !dots_at(v@, j),
        decreases v.len() - i,
    {
        if v[i] == '.' && v[i + 1] == '.' {
            proof {
                lemma_first_dots_unique(v@, i as int);
            }
            return Some(i);
        }
        i = i + 1;
    }
    assert forall|k: int| !is_first_dots(v@, k) by {
        if is_first_dots(v@, k) {
            assert(dots_at(v@, k));
        }
    }
    None
}

/// A single date, or a range of dates with an end that is or is not
/// written as included.
#[derive(Clone, Copy, Debug, PartialEq, Eq, Structural)]
pub enum DateInput {
    Single(Date),
    Range { start: Date, end: Date, inclusive: bool },
}

impl DateInput {
    pub open spec fn wf(self) -> bool {
        match self {
            DateInput::Single(d) => d.wf(),
            DateInput::Range { start, end, inclusive: _ } => start.wf() && end.wf()
                && start.spec_le(end),
        }
    }
}

/// The message for text that is neither a date nor a range.
pub open spec fn date_input_error_text() -> Seq<char> {
    "Provide either a range (YYYY-MM-DD..YYYY-MM-DD) or a single date (YYYY-MM-DD)"@
}

/// The message for a range that ends before it starts.
pub open spec fn range_order_error_text() -> Seq<char> {
    "DateInput: start cannot be after end when using range"@
}

/// The end part of a range: a leading `=` marks it as included.
pub open spec fn range_end_part(rest: Seq<char>) -> (Seq<char>, bool) {
    if rest.len() > 0 && rest[0] == '=' {
        (rest.drop_first(), true)
    } else {
        (rest, false)
    }
}

/// The message for text that is no period: the presets with their
/// aliases, then the forms of a date and of a range.
pub open spec fn period_error_text() -> Seq<char> {
    "Provide a period preset, an exact date or a range:\n- Period presets:\n  - today|tod|td\n  - yesterday|ytd|yd\n  - this-week|tw|twk|wk\n  - last-week|lw|lwk|yesterweek|yw|ywk\n  - this-month|tm|tmo|mo\n  - last-month|lm|lmo|yestermonth|ym|ymo\n  - all-time|all\n- Exact date: YYYY-MM-DD\n- Range: YYYY-MM-DD..YYYY-MM-DD"@
}

/// Reads `YYYY-MM-DD`, `YYYY-MM-DD..YYYY-MM-DD` or `YYYY-MM-DD..=YYYY-MM-DD`,
/// each date as chrono's `%Y-%m-%d` reads it.
pub open spec fn parse_date_input(s: Seq<char>) -> Result<DateInput, Seq<char>> {
    parse_date_input_or(s, date_input_error_text())
}

/// As `parse_date_input`, with `unreadable` as the message for text that is
/// neither a date nor a range.
pub open spec fn parse_date_input_or(s: Seq<char>, unreadable: Seq<char>) -> Result<DateInput, Seq<char>> {
    match split_dots(s) {
        Some(i) => {
            let (e, inclusive) = range_end_part(s.skip(i + 2));
            match (date_of(chrono_date_parse(s.take(i))), date_of(chrono_date_parse(e))) {
                (Some(start), Some(end)) => if !start.spec_le(end) {
                    Err(range_order_error_text())
                } else {
                    Ok(DateInput::Range { start, end, inclusive })
                },
                _ => Err(unreadable),
            }
        },
        None => match date_of(chrono_date_parse(s)) {
            Some(d) => Ok(DateInput::Single(d)),
            None => Err(unreadable),
        },
    }
}

/// A result with its error text taken by view.
pub open spec fn result_view<T>(r: Result<T, String>) -> Result<T, Seq<char>> {
    match r {
        Ok(x) => Ok(x),
        Err(e) => Err(e@),
    }
}

fn parse_one_date(v: &Vec<char>) -> (r: Option<Date>)
    ensures
        r == date_of(chrono_date_parse(v@)),
        r matches Some(d) ==> d.wf(),
{
    let s = string_from_chars(v);
    match parse_date(s.as_str()) {
        Ok(d) => Some(d),
        Err(_) => None,
    }
}

fn error_string(s: &str) -> (r: String)
    ensures
        r@ == s@,
{
    string_of(s)
}

fn parse_date_input_chars(v: &Vec<char>, unreadable: &str) -> (r: Result<DateInput, String>)
    ensures
        result_view(r) == parse_date_input_or(v@, unreadable@),
        r matches Ok(d) ==> d.wf(),
{
    match find_dots(v) {
        Some(i) => {
            let a = slice_chars(v, 0, i);
            assert(a@ == v@.take(i as int));
            let rest = slice_chars(v, i + 2, v.len());
            assert(rest@ == v@.skip(i + 2));
            let inclusive = rest.len() > 0 && rest[0] == '=';
            let b = if inclusive {
                slice_chars(&rest, 1, rest.len())
            } else {
                rest
            };
            assert(b@ == range_end_part(v@.skip(i + 2)).0);
            let start = parse_one_date(&a);
            let end = parse_one_date(&b);
            match (start, end) {
                (Some(st), Some(en)) => {
                    if !st.le(&en) {
                        Err(error_string("DateInput: start cannot be after end when using range"))
                    } else {
                        Ok(DateInput::Range { start: st, end: en, inclusive })
                    }
                },
                _ => Err(error_string(unreadable)),
            }
        },
        None => match parse_one_date(v) {
            Some(d) => Ok(DateInput::Single(d)),
            None => Err(error_string(unreadable)),
        },
    }
}

/// How a date input is written: a date, or `start to end (included)` /
/// `(excluded)`.
pub open spec fn date_input_text(d: DateInput) -> Seq<char> {
    match d {
        DateInput::Single(x) => date_text(x),
        DateInput::Range { start, end, inclusive } => date_text(start) + " to "@ + date_text(end)
            + " ("@ + if inclusive {
            "included"@
        } else {
            "excluded"@
        } + ")"@,
    }
}

impl DateInput {
    /// Reads a date or a range of dates.
    pub fn from_str(s: &str) -> (r: Result<DateInput, String>)
        ensures
            result_view(r) == parse_date_input(s@),
            r matches Ok(d) ==> d.wf(),
    {
        let v = chars_of(s);
        parse_date_input_chars(
            &v,
            "Provide either a range (YYYY-MM-DD..YYYY-MM-DD) or a single date (YYYY-MM-DD)",
        )
    }

    /// Writes the date input out.
    pub fn to_string(&self) -> (r: String)
        requires
            self.wf(),
        ensures
            r@ == date_input_text(*self),
    {
        match self {
            DateInput::Single(d) => DateTimeRenderMode::DateOnly.render_naive_date(d),
            DateInput::Range { start, end, inclusive } => {
                let st = DateTimeRenderMode::DateOnly.render_naive_date(start);
                let en = DateTimeRenderMode::DateOnly.render_naive_date(end);
                let mut v: Vec<char> = Vec::new();
                push_str(&mut v, st.as_str());
                push_str(&mut v, " to ");
                push_str(&mut v, en.as_str());
                push_str(&mut v, " (");
                push_str(&mut v, if *inclusive { "included" } else { "excluded" });
                push_str(&mut v, ")");
                assert(v@ =~= date_input_text(*self));
                string_from_chars(&v)
            },
        }
    }
}


/// Names and aliases of preset periods all start with a lower-case letter,
/// so a text starting with a digit or a sign names none.
proof fn lemma_preset_of_date_like(s: Seq<char>)
    requires
        s.len() > 0,
        date_char(s[0]),
    ensures
        preset_of(s) is None,
{
    reveal_strlit("today");
    reveal_strlit("td");
    reveal_strlit("tod");
    reveal_strlit("yesterday");
    reveal_strlit("yd");
    reveal_strlit("ytd");
    reveal_strlit("this-week");
    reveal_strlit("tw");
    reveal_strlit("twk");
    reveal_strlit("wk");
    reveal_strlit("last-week");
    reveal_strlit("lw");
    reveal_strlit("lwk");
    reveal_strlit("yesterweek");
    reveal_strlit("yw");
    reveal_strlit("ywk");
    reveal_strlit("this-month");
    reveal_strlit("tm");
    reveal_strlit("tmo");
    reveal_strlit("mo");
    reveal_strlit("last-month");
    reveal_strlit("lm");
    reveal_strlit("lmo");
    reveal_strlit("yestermonth");
    reveal_strlit("ym");
    reveal_strlit("ymo");
    reveal_strlit("all-time");
    reveal_strlit("all");
}

/// The name of a preset period and its aliases, as the message for text
/// that is no period lists them: the name first.
pub open spec fn preset_aliases(p: PresetPeriod) -> Seq<Seq<char>> {
    match p {
        PresetPeriod::Today => seq!["today"@, "tod"@, "td"@],
        PresetPeriod::Yesterday => seq!["yesterday"@, "ytd"@, "yd"@],
        PresetPeriod::ThisWeek => seq!["this-week"@, "tw"@, "twk"@, "wk"@],
        PresetPeriod::LastWeek => seq!["last-week"@, "lw"@, "lwk"@, "yesterweek"@, "yw"@, "ywk"@],
        PresetPeriod::ThisMonth => seq!["this-month"@, "tm"@, "tmo"@, "mo"@],
        PresetPeriod::LastMonth => seq!["last-month"@, "lm"@, "lmo"@, "yestermonth"@, "ym"@, "ymo"@],
        PresetPeriod::AllTime => seq!["all-time"@, "all"@],
    }
}

/// Each name and alias of a preset reads as that preset, and nothing else
/// reads as it: a text reads as the preset `p` exactly when it is one of
/// `p`'s name and aliases.
pub proof fn lemma_preset_aliases(p: PresetPeriod, s: Seq<char>)
    ensures
        forall|i: int| 0 <= i < preset_aliases(p).len() ==> preset_of(#[trigger] preset_aliases(p)[i]) == Some(p),
        preset_of(s) == Some(p) <==> preset_aliases(p).contains(s),
        preset_aliases(p)[0] == preset_text(p),
{
    reveal_strlit("today");
    reveal_strlit("tod");
    reveal_strlit("td");
    reveal_strlit("yesterday");
    reveal_strlit("ytd");
    reveal_strlit("yd");
    reveal_strlit("this-week");
    reveal_strlit("tw");
    reveal_strlit("twk");
    reveal_strlit("wk");
    reveal_strlit("last-week");
    reveal_strlit("lw");
    reveal_strlit("lwk");
    reveal_strlit("yesterweek");
    reveal_strlit("yw");
    reveal_strlit("ywk");
    reveal_strlit("this-month");
    reveal_strlit("tm");
    reveal_strlit("tmo");
    reveal_strlit("mo");
    reveal_strlit("last-month");
    reveal_strlit("lm");
    reveal_strlit("lmo");
    reveal_strlit("yestermonth");
    reveal_strlit("ym");
    reveal_strlit("ymo");
    reveal_strlit("all-time");
    reveal_strlit("all");
    let a = preset_aliases(p);
    assert("today"@.len() == 5 && "today"@[0] == 't' && "today"@[1] == 'o');
    assert("tod"@.len() == 3 && "tod"@[0] == 't' && "tod"@[1] == 'o');
    assert("td"@.len() == 2 && "td"@[0] == 't' && "td"@[1] == 'd');
    assert("yesterday"@.len() == 9 && "yesterday"@[0] == 'y' && "yesterday"@[1] == 'e');
    assert("ytd"@.len() == 3 && "ytd"@[0] == 'y' && "ytd"@[1] == 't');
    assert("yd"@.len() == 2 && "yd"@[0] == 'y' && "yd"@[1] == 'd');
    assert("this-week"@.len() == 9 && "this-week"@[0] == 't' && "this-week"@[1] == 'h');
    assert("tw"@.len() == 2 && "tw"@[0] == 't' && "tw"@[1] == 'w');
    assert("twk"@.len() == 3 && "twk"@[0] == 't' && "twk"@[1] == 'w');
    assert("wk"@.len() == 2 && "wk"@[0] == 'w' && "wk"@[1] == 'k');
    assert("last-week"@.len() == 9 && "last-week"@[0] == 'l' && "last-week"@[1] == 'a');
    assert("lw"@.len() == 2 && "lw"@[0] == 'l' && "lw"@[1] == 'w');
    assert("lwk"@.len() == 3 && "lwk"@[0] == 'l' && "lwk"@[1] == 'w');
    assert("yesterweek"@.len() == 10 && "yesterweek"@[0] == 'y' && "yesterweek"@[1] == 'e');
    assert("yw"@.len() == 2 && "yw"@[0] == 'y' && "yw"@[1] == 'w');
    assert("ywk"@.len() == 3 && "ywk"@[0] == 'y' && "ywk"@[1] == 'w');
    assert("this-month"@.len() == 10 && "this-month"@[0] == 't' && "this-month"@[1] == 'h');
    assert("tm"@.len() == 2 && "tm"@[0] == 't' && "tm"@[1] == 'm');
    assert("tmo"@.len() == 3 && "tmo"@[0] == 't' && "tmo"@[1] == 'm');
    assert("mo"@.len() == 2 && "mo"@[0] == 'm' && "mo"@[1] == 'o');
    assert("last-month"@.len() == 10 && "last-month"@[0] == 'l' && "last-month"@[1] == 'a');
    assert("lm"@.len() == 2 && "lm"@[0] == 'l' && "lm"@[1] == 'm');
    assert("lmo"@.len() == 3 && "lmo"@[0] == 'l' && "lmo"@[1] == 'm');
    assert("yestermonth"@.len() == 11 && "yestermonth"@[0] == 'y' && "yestermonth"@[1] == 'e');
    assert("ym"@.len() == 2 && "ym"@[0] == 'y' && "ym"@[1] == 'm');
    assert("ymo"@.len() == 3 && "ymo"@[0] == 'y' && "ymo"@[1] == 'm');
    assert("all-time"@.len() == 8 && "all-time"@[0] == 'a' && "all-time"@[1] == 'l');
    assert("all"@.len() == 3 && "all"@[0] == 'a' && "all"@[1] == 'l');
    assert(preset_of("today"@) == Some(PresetPeriod::Today));
    assert(preset_of("tod"@) == Some(PresetPeriod::Today));
    assert(preset_of("td"@) == Some(PresetPeriod::Today));
    assert(preset_of("yesterday"@) == Some(PresetPeriod::Yesterday));
    assert(preset_of("ytd"@) == Some(PresetPeriod::Yesterday));
    assert(preset_of("yd"@) == Some(PresetPeriod::Yesterday));
    assert(preset_of("this-week"@) == Some(PresetPeriod::ThisWeek));
    assert(preset_of("tw"@) == Some(PresetPeriod::ThisWeek));
    assert(preset_of("twk"@) == Some(PresetPeriod::ThisWeek));
    assert(preset_of("wk"@) == Some(PresetPeriod::ThisWeek));
    assert(preset_of("last-week"@) == Some(PresetPeriod::LastWeek));
    assert(preset_of("lw"@) == Some(PresetPeriod::LastWeek));
    assert(preset_of("lwk"@) == Some(PresetPeriod::LastWeek));
    assert(preset_of("yesterweek"@) == Some(PresetPeriod::LastWeek));
    assert(preset_of("yw"@) == Some(PresetPeriod::LastWeek));
    assert(preset_of("ywk"@) == Some(PresetPeriod::LastWeek));
    assert(preset_of("this-month"@) == Some(PresetPeriod::ThisMonth));
    assert(preset_of("tm"@) == Some(PresetPeriod::ThisMonth));
    assert(preset_of("tmo"@) == Some(PresetPeriod::ThisMonth));
    assert(preset_of("mo"@) == Some(PresetPeriod::ThisMonth));
    assert(preset_of("last-month"@) == Some(PresetPeriod::LastMonth));
    assert(preset_of("lm"@) == Some(PresetPeriod::LastMonth));
    assert(preset_of("lmo"@) == Some(PresetPeriod::LastMonth));
    assert(preset_of("yestermonth"@) == Some(PresetPeriod::LastMonth));
    assert(preset_of("ym"@) == Some(PresetPeriod::LastMonth));
    assert(preset_of("ymo"@) == Some(PresetPeriod::LastMonth));
    assert(preset_of("all-time"@) == Some(PresetPeriod::AllTime));
    assert(preset_of("all"@) == Some(PresetPeriod::AllTime));
    assert forall|i: int| 0 <= i < a.len() implies preset_of(#[trigger] a[i]) == Some(p) by {
        match p {
            PresetPeriod::Today => {
                if i == 0 {
                    assert(a[0] == "today"@);
                }
                if i == 1 {
                    assert(a[1] == "tod"@);
                }
                if i == 2 {
                    assert(a[2] == "td"@);
                }
            },
            PresetPeriod::Yesterday => {
                if i == 0 {
                    assert(a[0] == "yesterday"@);
                }
                if i == 1 {
                    assert(a[1] == "ytd"@);
                }
                if i == 2 {
                    assert(a[2] == "yd"@);
                }
            },
            PresetPeriod::ThisWeek => {
                if i == 0 {
                    assert(a[0] == "this-week"@);
                }
                if i == 1 {
                    assert(a[1] == "tw"@);
                }
                if i == 2 {
                    assert(a[2] == "twk"@);
                }
                if i == 3 {
                    assert(a[3] == "wk"@);
                }
            },
            PresetPeriod::LastWeek => {
                if i == 0 {
                    assert(a[0] == "last-week"@);
                }
                if i == 1 {
                    assert(a[1] == "lw"@);
                }
                if i == 2 {
                    assert(a[2] == "lwk"@);
                }
                if i == 3 {
                    assert(a[3] == "yesterweek"@);
                }
                if i == 4 {
                    assert(a[4] == "yw"@);
                }
                if i == 5 {
                    assert(a[5] == "ywk"@);
                }
            },
            PresetPeriod::ThisMonth => {
                if i == 0 {
                    assert(a[0] == "this-month"@);
                }
                if i == 1 {
                    assert(a[1] == "tm"@);
                }
                if i == 2 {
                    assert(a[2] == "tmo"@);
                }
                if i == 3 {
                    assert(a[3] == "mo"@);
                }
            },
            PresetPeriod::LastMonth => {
                if i == 0 {
                    assert(a[0] == "last-month"@);
                }
                if i == 1 {
                    assert(a[1] == "lm"@);
                }
                if i == 2 {
                    assert(a[2] == "lmo"@);
                }
                if i == 3 {
                    assert(a[3] == "yestermonth"@);
                }
                if i == 4 {
                    assert(a[4] == "ym"@);
                }
                if i == 5 {
                    assert(a[5] == "ymo"@);
                }
            },
            PresetPeriod::AllTime => {
                if i == 0 {
                    assert(a[0] == "all-time"@);
                }
                if i == 1 {
                    assert(a[1] == "all"@);
                }
            },
        }
    }
    if preset_of(s) == Some(p) {
        assert(exists|k: int| 0 <= k < a.len() && a[k] == s) by {
            match p {
                PresetPeriod::Today => {
                    if s == "today"@ {
                        assert(a[0] == s);
                    }
                    if s == "tod"@ {
                        assert(a[1] == s);
                    }
                    if s == "td"@ {
                        assert(a[2] == s);
                    }
                },
                PresetPeriod::Yesterday => {
                    if s == "yesterday"@ {
                        assert(a[0] == s);
                    }
                    if s == "ytd"@ {
                        assert(a[1] == s);
                    }
                    if s == "yd"@ {
                        assert(a[2] == s);
                    }
                },
                PresetPeriod::ThisWeek => {
                    if s == "this-week"@ {
                        assert(a[0] == s);
                    }
                    if s == "tw"@ {
                        assert(a[1] == s);
                    }
                    if s == "twk"@ {
                        assert(a[2] == s);
                    }
                    if s == "wk"@ {
                        assert(a[3] == s);
                    }
                },
                PresetPeriod::LastWeek => {
                    if s == "last-week"@ {
                        assert(a[0] == s);
                    }
                    if s == "lw"@ {
                        assert(a[1] == s);
                    }
                    if s == "lwk"@ {
                        assert(a[2] == s);
                    }
                    if s == "yesterweek"@ {
                        assert(a[3] == s);
                    }
                    if s == "yw"@ {
                        assert(a[4] == s);
                    }
                    if s == "ywk"@ {
                        assert(a[5] == s);
                    }
                },
                PresetPeriod::ThisMonth => {
                    if s == "this-month"@ {
                        assert(a[0] == s);
                    }
                    if s == "tm"@ {
                        assert(a[1] == s);
                    }
                    if s == "tmo"@ {
                        assert(a[2] == s);
                    }
                    if s == "mo"@ {
                        assert(a[3] == s);
                    }
                },
                PresetPeriod::LastMonth => {
                    if s == "last-month"@ {
                        assert(a[0] == s);
                    }
                    if s == "lm"@ {
                        assert(a[1] == s);
                    }
                    if s == "lmo"@ {
                        assert(a[2] == s);
                    }
                    if s == "yestermonth"@ {
                        assert(a[3] == s);
                    }
                    if s == "ym"@ {
                        assert(a[4] == s);
                    }
                    if s == "ymo"@ {
                        assert(a[5] == s);
                    }
                },
                PresetPeriod::AllTime => {
                    if s == "all-time"@ {
                        assert(a[0] == s);
                    }
                    if s == "all"@ {
                        assert(a[1] == s);
                    }
                },
            }
        }
    }
}

/// Each preset's name reads back as that preset; names are plain
/// lower-case ASCII.
pub proof fn lemma_preset_text_parses(p: PresetPeriod)
    ensures
        preset_of(preset_text(p)) == Some(p),
        is_ascii_text(preset_text(p)),
        no_ascii_upper(preset_text(p)),
{
    reveal_strlit("today");
    reveal_strlit("td");
    reveal_strlit("tod");
    reveal_strlit("yesterday");
    reveal_strlit("yd");
    reveal_strlit("ytd");
    reveal_strlit("this-week");
    reveal_strlit("tw");
    reveal_strlit("twk");
    reveal_strlit("wk");
    reveal_strlit("last-week");
    reveal_strlit("lw");
    reveal_strlit("lwk");
    reveal_strlit("yesterweek");
    reveal_strlit("yw");
    reveal_strlit("ywk");
    reveal_strlit("this-month");
    reveal_strlit("tm");
    reveal_strlit("tmo");
    reveal_strlit("mo");
    reveal_strlit("last-month");
    reveal_strlit("lm");
    reveal_strlit("lmo");
    reveal_strlit("yestermonth");
    reveal_strlit("ym");
    reveal_strlit("ymo");
    reveal_strlit("all-time");
    reveal_strlit("all");
    let t = preset_text(p);
    match p {
        PresetPeriod::Today => {},
        PresetPeriod::Yesterday => {
            assert(t[0] == 'y' && t.len() == 9);
        },
        PresetPeriod::ThisWeek => {
            assert(t[0] == 't' && t[1] == 'h' && t.len() == 9);
        },
        PresetPeriod::LastWeek => {
            assert(t[0] == 'l' && t.len() == 9);
        },
        PresetPeriod::ThisMonth => {
            assert(t[0] == 't' && t[1] == 'h' && t.len() == 10);
            assert(t[5] == 'm');
        },
        PresetPeriod::LastMonth => {
            assert(t[0] == 'l' && t.len() == 10);
            assert(t[5] == 'm');
        },
        PresetPeriod::AllTime => {
            assert(t[0] == 'a' && t.len() == 8);
        },
    }
}

/// A period: a preset, a single date, or a range of dates.
#[derive(Clone, Copy, Debug, PartialEq, Eq, Structural)]
pub enum PeriodInput {
    Preset(PresetPeriod),
    Single(Date),
    Range { start: Date, end: Date, inclusive: bool },
}

impl Default for PeriodInput {
    fn default() -> (r: Self)
        ensures
            r == PeriodInput::Preset(PresetPeriod::AllTime),
    {
        PeriodInput::Preset(PresetPeriod::AllTime)
    }
}

/// A date whose year chrono writes with four plain digits.
pub open spec fn four_digit_year(d: Date) -> bool {
    0 <= d.year <= 9999
}

impl PeriodInput {
    pub open spec fn wf(self) -> bool {
        match self {
            PeriodInput::Preset(_) => true,
            PeriodInput::Single(d) => d.wf(),
            PeriodInput::Range { start, end, inclusive: _ } => start.wf() && end.wf()
                && start.spec_le(end),
        }
    }

    /// Every date of the period has a year from 0 to 9999.
    pub open spec fn four_digit_years(self) -> bool {
        match self {
            PeriodInput::Preset(_) => true,
            PeriodInput::Single(d) => four_digit_year(d),
            PeriodInput::Range { start, end, inclusive: _ } => four_digit_year(start)
                && four_digit_year(end),
        }
    }
}

/// A period as it is written: the preset's name, the date, or
/// `start..end` (`start..=end` when the end is marked as included).
pub open spec fn period_text(p: PeriodInput) -> Seq<char> {
    match p {
        PeriodInput::Preset(x) => preset_text(x),
        PeriodInput::Single(d) => date_text(d),
        PeriodInput::Range { start, end, inclusive } => date_text(start) + ".."@ + if inclusive {
            "="@
        } else {
            ""@
        } + date_text(end),
    }
}

/// Reads a lower-cased period: a preset name or alias, else a date input.
pub open spec fn parse_period(s: Seq<char>) -> Result<PeriodInput, Seq<char>> {
    match preset_of(s) {
        Some(p) => Ok(PeriodInput::Preset(p)),
        None => match parse_date_input_or(s, period_error_text()) {
            Ok(DateInput::Single(d)) => Ok(PeriodInput::Single(d)),
            Ok(DateInput::Range { start, end, inclusive }) => Ok(
                PeriodInput::Range { start, end, inclusive },
            ),
            Err(e) => Err(e),
        },
    }
}

/// A text that is no period is refused with the message that lists the
/// presets and the forms of dates and ranges, unless it is a range of two
/// dates whose end comes before its start.
pub proof fn lemma_period_errors(s: Seq<char>)
    ensures
        parse_period(s) matches Err(e) ==> e == period_error_text() || e == range_order_error_text(),
        parse_period(s) == Err::<PeriodInput, Seq<char>>(range_order_error_text()) ==> split_dots(s) is Some,
{
    reveal_strlit("DateInput: start cannot be after end when using range");
    reveal_strlit("Provide a period preset, an exact date or a range:\n- Period presets:\n  - today|tod|td\n  - yesterday|ytd|yd\n  - this-week|tw|twk|wk\n  - last-week|lw|lwk|yesterweek|yw|ywk\n  - this-month|tm|tmo|mo\n  - last-month|lm|lmo|yestermonth|ym|ymo\n  - all-time|all\n- Exact date: YYYY-MM-DD\n- Range: YYYY-MM-DD..YYYY-MM-DD");
    assert(period_error_text()[0] != range_order_error_text()[0]);
}

impl PeriodInput {
    /// Reads a period, case-insensitively: `today`, `lw`, `2024-05-01`,
    /// `2024-05-01..2024-05-07`, ...
    pub fn from_str(s: &str) -> (r: Result<PeriodInput, String>)
        ensures
            result_view(r) == parse_period(std_to_lowercase(s@)),
            is_ascii_text(s@) ==> result_view(r) == parse_period(s@.map_values(|c: char| ascii_lower(c))),
            r matches Ok(p) ==> p.wf(),
    {
        let lower = to_lowercase(s);
        let v = chars_of(lower.as_str());
        match preset_of_chars(&v) {
            Some(p) => Ok(PeriodInput::Preset(p)),
            None => match parse_date_input_chars(
                &v,
                "Provide a period preset, an exact date or a range:\n- Period presets:\n  - today|tod|td\n  - yesterday|ytd|yd\n  - this-week|tw|twk|wk\n  - last-week|lw|lwk|yesterweek|yw|ywk\n  - this-month|tm|tmo|mo\n  - last-month|lm|lmo|yestermonth|ym|ymo\n  - all-time|all\n- Exact date: YYYY-MM-DD\n- Range: YYYY-MM-DD..YYYY-MM-DD",
            ) {
                Ok(DateInput::Single(d)) => Ok(PeriodInput::Single(d)),
                Ok(DateInput::Range { start, end, inclusive }) => Ok(
                    PeriodInput::Range { start, end, inclusive },
                ),
                Err(e) => Err(e),
            },
        }
    }

    /// Writes the period out. The text is lower-case ASCII, and it reads
    /// back as the same period (for dates of the years 0 to 9999).
    pub fn to_string(&self) -> (r: String)
        requires
            self.wf(),
        ensures
            r@ == period_text(*self),
            is_ascii_text(r@),
            no_ascii_upper(r@),
            self.four_digit_years() ==> parse_period(r@) == Ok::<PeriodInput, Seq<char>>(*self),
    {
        match self {
            PeriodInput::Preset(p) => {
                let r = p.to_string();
                proof {
                    lemma_preset_text_parses(*p);
                    assert(preset_of(r@) == Some(*p));
                    assert(parse_period(r@) == Ok::<PeriodInput, Seq<char>>(PeriodInput::Preset(*p)));
                    assert(*self == PeriodInput::Preset(*p));
                }
                r
            },
            PeriodInput::Single(d) => {
                let r = DateTimeRenderMode::DateOnly.render_naive_date(d);
                proof {
                    lemma_date_text_chars(*d);
                    lemma_preset_of_date_like(r@);
                    assert forall|j: int| !is_first_dots(r@, j) by {
                        if is_first_dots(r@, j) {
                            assert(date_char(r@[j]));
                        }
                    }
                    assert(split_dots(r@) is None);
                    assert(is_ascii_text(r@)) by {
                        assert forall|i: int| 0 <= i < r@.len() implies (#[trigger] r@[i] as u32) < 128 by {
                            assert(date_char(r@[i]));
                        }
                    }
                    assert(no_ascii_upper(r@)) by {
                        assert forall|i: int| 0 <= i < r@.len() implies !('A' <= #[trigger] r@[i] && r@[i] <= 'Z') by {
                            assert(date_char(r@[i]));
                        }
                    }
                }
                r
            },
            PeriodInput::Range { start, end, inclusive } => {
                let st = DateTimeRenderMode::DateOnly.render_naive_date(start);
                let en = DateTimeRenderMode::DateOnly.render_naive_date(end);
                let mut v: Vec<char> = Vec::new();
                push_str(&mut v, st.as_str());
                push_str(&mut v, "..");
                push_str(&mut v, if *inclusive { "=" } else { "" });
                push_str(&mut v, en.as_str());
                let r = string_from_chars(&v);
                proof {
                    reveal_strlit("..");
                    reveal_strlit("=");
                    reveal_strlit("");
                    let a = date_text(*start);
                    let b = date_text(*end);
                    let mid = if *inclusive { "="@ } else { ""@ };
                    assert(r@ == a + ".."@ + mid + b);
                    lemma_date_text_chars(*start);
                    lemma_date_text_chars(*end);
                    let t = r@;
                    assert forall|i: int| 0 <= i < t.len() implies (#[trigger] t[i] as u32) < 128 && !('A' <= t[i] && t[i] <= 'Z') by {
                        if i < a.len() {
                            assert(t[i] == a[i]);
                            assert(date_char(a[i]));
                        } else if i < a.len() + 2 + mid.len() {
                        } else {
                            assert(t[i] == b[i - a.len() - 2 - mid.len()]);
                            assert(date_char(b[i - a.len() - 2 - mid.len()]));
                        }
                    }
                    assert forall|j: int| 0 <= j < a.len() implies !dots_at(t, j) by {
                        assert(t[j] == a[j]);
                        assert(date_char(a[j]));
                    }
                    assert(dots_at(t, a.len() as int));
                    lemma_first_dots_unique(t, a.len() as int);
                    assert(t.take(a.len() as int) =~= a);
                    let rest = t.skip(a.len() as int + 2);
                    assert(rest =~= mid + b);
                    if *inclusive {
                        assert(rest[0] == '=');
                        assert(rest.drop_first() =~= b);
                    } else {
                        assert(rest =~= b);
                        assert(date_char(b[0]));
                    }
                    assert(range_end_part(rest) == (b, *inclusive));
                    assert(t[0] == a[0]);
                    assert(date_char(a[0]));
                    lemma_preset_of_date_like(t);
                }
                r
            },
        }
    }
}


/// The English name of a month (chrono's `%B`).
pub open spec fn month_name(m: int) -> Seq<char> {
    if m == 1 {
        "January"@
    } else if m == 2 {
        "February"@
    } else if m == 3 {
        "March"@
    } else if m == 4 {
        "April"@
    } else if m == 5 {
        "May"@
    } else if m == 6 {
        "June"@
    } else if m == 7 {
        "July"@
    } else if m == 8 {
        "August"@
    } else if m == 9 {
        "September"@
    } else if m == 10 {
        "October"@
    } else if m == 11 {
        "November"@
    } else {
        "December"@
    }
}

pub(crate) fn month_name_str(m: u32) -> (r: &'static str)
    ensures
        r@ == month_name(m as int),
{
    if m == 1 {
        "January"
    } else if m == 2 {
        "February"
    } else if m == 3 {
        "March"
    } else if m == 4 {
        "April"
    } else if m == 5 {
        "May"
    } else if m == 6 {
        "June"
    } else if m == 7 {
        "July"
    } else if m == 8 {
        "August"
    } else if m == 9 {
        "September"
    } else if m == 10 {
        "October"
    } else if m == 11 {
        "November"
    } else {
        "December"
    }
}

/// The month before a month: same year, or December of the year before.
pub open spec fn previous_month(y: int, m: int) -> (int, int) {
    if m > 1 {
        (y, m - 1)
    } else {
        (y - 1, 12)
    }
}

/// A month written as `Month year`, e.g. `April 2024`.
pub open spec fn month_label(y: int, m: int) -> Seq<char> {
    month_name(m) + " "@ + int_text(y)
}

/// How a preset period is shown in headings, with today's date.
pub open spec fn preset_label(p: PresetPeriod, today: Date) -> Seq<char> {
    match p {
        PresetPeriod::Today => "Today"@,
        PresetPeriod::Yesterday => "Yesterday"@,
        PresetPeriod::ThisWeek => "This week"@,
        PresetPeriod::LastWeek => "Last week"@,
        PresetPeriod::ThisMonth => month_label(today.year as int, today.month as int),
        PresetPeriod::LastMonth => {
            let (y, m) = previous_month(today.year as int, today.month as int);
            month_label(y, m)
        },
        PresetPeriod::AllTime => "All time"@,
    }
}

fn month_label_string(y: i32, m: u32) -> (r: String)
    ensures
        r@ == month_label(y as int, m as int),
{
    let mut v: Vec<char> = Vec::new();
    push_str(&mut v, month_name_str(m));
    push_str(&mut v, " ");
    push_int(&mut v, y as i64);
    string_from_chars(&v)
}

impl PresetPeriod {
    /// The heading of the period on a given day.
    pub fn display_pretty_at(&self, today: &Date) -> (r: String)
        requires
            today.wf(),
        ensures
            r@ == preset_label(*self, *today),
    {
        match self {
            PresetPeriod::Today => string_of("Today"),
            PresetPeriod::Yesterday => string_of("Yesterday"),
            PresetPeriod::ThisWeek => string_of("This week"),
            PresetPeriod::LastWeek => string_of("Last week"),
            PresetPeriod::ThisMonth => month_label_string(today.year, today.month),
            PresetPeriod::LastMonth => {
                if today.month > 1 {
                    month_label_string(today.year, today.month - 1)
                } else {
                    month_label_string(today.year - 1, 12)
                }
            },
            PresetPeriod::AllTime => string_of("All time"),
        }
    }

    /// The heading of the period today, in the local time zone; none when
    /// the system clock gives no usable instant.
    pub fn display_pretty(&self) -> (r: Option<String>)
        ensures
            r matches Some(t) ==> exists|today: Date| today.wf() && t@ == preset_label(*self, today),
    {
        match local_today() {
            Some(today) => Some(self.display_pretty_at(&today)),
            None => None,
        }
    }
}

/// A period that listings could be restricted to.
#[derive(Clone, Copy, Debug, PartialEq, Eq, Structural)]
pub enum Period {
    Today,
    Yesterday,
    ThisWeek,
    LastWeek,
    ThisMonth,
    LastMonth,
}

impl Default for Period {
    fn default() -> (r: Self)
        ensures
            r == Period::ThisWeek,
    {
        Period::ThisWeek
    }
}

impl Period {
    /// The preset period of the same name.
    pub open spec fn as_preset(self) -> PresetPeriod {
        match self {
            Period::Today => PresetPeriod::Today,
            Period::Yesterday => PresetPeriod::Yesterday,
            Period::ThisWeek => PresetPeriod::ThisWeek,
            Period::LastWeek => PresetPeriod::LastWeek,
            Period::ThisMonth => PresetPeriod::ThisMonth,
            Period::LastMonth => PresetPeriod::LastMonth,
        }
    }

    /// How the period is shown on a given day.
    pub fn to_string_at(&self, today: &Date) -> (r: String)
        requires
            today.wf(),
        ensures
            r@ == preset_label(self.as_preset(), *today),
    {
        let p = match self {
            Period::Today => PresetPeriod::Today,
            Period::Yesterday => PresetPeriod::Yesterday,
            Period::ThisWeek => PresetPeriod::ThisWeek,
            Period::LastWeek => PresetPeriod::LastWeek,
            Period::ThisMonth => PresetPeriod::ThisMonth,
            Period::LastMonth => PresetPeriod::LastMonth,
        };
        p.display_pretty_at(today)
    }

    /// How the period is shown today, in the local time zone; none when the
    /// system clock gives no usable instant.
    pub fn to_string(&self) -> (r: Option<String>)
        ensures
            r matches Some(t) ==> exists|today: Date| today.wf() && t@ == preset_label(self.as_preset(), today),
    {
        match local_today() {
            Some(today) => Some(self.to_string_at(&today)),
            None => None,
        }
    }
}

} // verus!

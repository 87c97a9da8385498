use vstd::prelude::*;

use crate::commands::{push_utc_display, utc_display_text};
use crate::date::{
    clock_error, clock_error_text, local_fields_of, local_to_timestamp, minutes_read, read_minutes, ts_in_range,
    utc_now, DateTimeFields, Instant, CHRONO_MAX_TIMESTAMP, CHRONO_MIN_TIMESTAMP,
};
use crate::models::{Id, Log};
use crate::text::{
    chars_of, int_text, is_white_space, is_whitespace, lines, lines_of, nat_digits, parse_i64, push_int,
    parse_i64_chars, push_chars, push_nat_digits, push_str, split_char, split_chars,
    starts_with_char, string_from_chars, trim, trim_chars, trim_start, views,
};

verus! {

/// A change that an edit makes to one log: its new start and its new end,
/// each only when it changed.
#[derive(Clone, Copy, Debug, PartialEq, Eq, Structural)]
pub struct EditLogDiff {
    pub log_id: Id,
    pub starts_at_current: i64,
    pub starts_at_new: Option<i64>,
    pub ends_at_current: Option<i64>,
    pub ends_at_new: Option<Option<i64>>,
}

/// Why edited logs are refused.
#[derive(Clone, Copy, Debug, PartialEq, Eq, Structural)]
pub enum DiffError {
    /// Lines were added or removed.
    LogCountChanged { original: usize, edited: usize },
    /// More than one log has no end.
    SeveralOpenEnded,
    /// A log id that the original logs do not hold.
    UnknownLog { log_id: Id },
    /// A log was moved to another activity.
    ActivityChanged { log_id: Id, edited_activity_id: Id, original_activity_id: Id },
    /// A log starts after it ends (an open log: after now).
    StartAfterEnd { log_id: Id, starts_at: i64, ends_at: Option<i64> },
    /// The system clock, needed to end an open log now, gives no usable
    /// instant.
    Clock,
}

/// A timestamp as chrono writes a UTC date and time with `{}`; as its
/// number of seconds when chrono cannot hold it.
pub open spec fn shown_time(t: i64) -> Seq<char> {
    if ts_in_range(t as int) {
        utc_display_text(t)
    } else {
        int_text(t as int)
    }
}

/// The message of a refused edit.
pub open spec fn diff_error_text(e: DiffError) -> Seq<char> {
    match e {
        DiffError::LogCountChanged { original, edited } => "number of log entries has changed: original had "@
            + nat_digits(original as nat) + ", but edited has "@ + nat_digits(edited as nat),
        DiffError::SeveralOpenEnded => "more than one log entry is open-ended (missing ends_at), which is not allowed"@,
        DiffError::UnknownLog { log_id } => "Log with ID "@ + int_text(log_id as int) + " does not exist in the original data"@,
        DiffError::ActivityChanged { log_id, edited_activity_id, original_activity_id } => "Log with ID "@ + int_text(
            log_id as int,
        ) + " has a different activity_id ("@ + int_text(edited_activity_id as int) + ") than the original ("@
            + int_text(original_activity_id as int) + ")"@,
        DiffError::StartAfterEnd { log_id, starts_at, ends_at } => "Log with ID "@ + int_text(log_id as int)
            + " has starts_at ("@ + shown_time(starts_at) + ") after ends_at ("@ + shown_time(
            match ends_at {
                Some(e) => e,
                None => 0,
            },
        ) + ")"@,
        DiffError::Clock => clock_error_text(),
    }
}

fn push_shown_time(out: &mut Vec<char>, t: i64)
    ensures
        final(out)@ == old(out)@ + shown_time(t),
{
    if CHRONO_MIN_TIMESTAMP <= t && t <= CHRONO_MAX_TIMESTAMP {
        push_utc_display(out, t);
    } else {
        push_int(out, t);
    }
}

impl DiffError {
    /// The message of the error.
    pub fn message(&self) -> (r: String)
        ensures
            r@ == diff_error_text(*self),
    {
        let mut v: Vec<char> = Vec::new();
        match self {
            DiffError::LogCountChanged { original, edited } => {
                push_str(&mut v, "number of log entries has changed: original had ");
                push_nat_digits(&mut v, *original as u64);
                push_str(&mut v, ", but edited has ");
                push_nat_digits(&mut v, *edited as u64);
            },
            DiffError::SeveralOpenEnded => {
                push_str(&mut v, "more than one log entry is open-ended (missing ends_at), which is not allowed");
            },
            DiffError::UnknownLog { log_id } => {
                push_str(&mut v, "Log with ID ");
                push_int(&mut v, *log_id);
                push_str(&mut v, " does not exist in the original data");
            },
            DiffError::ActivityChanged { log_id, edited_activity_id, original_activity_id } => {
                push_str(&mut v, "Log with ID ");
                push_int(&mut v, *log_id);
                push_str(&mut v, " has a different activity_id (");
                push_int(&mut v, *edited_activity_id);
                push_str(&mut v, ") than the original (");
                push_int(&mut v, *original_activity_id);
                push_str(&mut v, ")");
            },
            DiffError::StartAfterEnd { log_id, starts_at, ends_at } => {
                push_str(&mut v, "Log with ID ");
                push_int(&mut v, *log_id);
                push_str(&mut v, " has starts_at (");
                push_shown_time(&mut v, *starts_at);
                push_str(&mut v, ") after ends_at (");
                let e: i64 = match ends_at {
                    Some(e) => *e,
                    None => 0,
                };
                push_shown_time(&mut v, e);
                push_str(&mut v, ")");
            },
            DiffError::Clock => {
                return clock_error();
            },
        }
        assert(v@ =~= diff_error_text(*self));
        string_from_chars(&v)
    }
}

/// The minute a timestamp falls in: the time with its seconds set to zero.
pub open spec fn minute_of(t: int) -> int {
    t / 60
}

/// Two optional times are equal up to their seconds.
pub open spec fn loose_eq(a: Option<i64>, b: Option<i64>) -> bool {
    match (a, b) {
        (Some(x), Some(y)) => minute_of(x as int) == minute_of(y as int),
        (None, None) => true,
        _ => false,
    }
}

/// Compares two optional times, ignoring their seconds.
pub fn date_time_opt_loose_eq(dt1: &Option<i64>, dt2: &Option<i64>) -> (r: Result<bool, DiffError>)
    ensures
        r == Ok::<bool, DiffError>(loose_eq(*dt1, *dt2)),
{
    match (dt1, dt2) {
        (Some(x), Some(y)) => {
            let a = x.checked_div_euclid(60).unwrap();
            let b = y.checked_div_euclid(60).unwrap();
            Ok(a == b)
        },
        (None, None) => Ok(true),
        _ => Ok(false),
    }
}

/// How many logs have no end.
pub open spec fn count_open(logs: Seq<Log>) -> nat
    decreases logs.len(),
{
    if logs.len() == 0 {
        0
    } else {
        count_open(logs.drop_last()) + if logs.last().ends_at is None {
            1nat
        } else {
            0nat
        }
    }
}

/// The first log with the given id.
pub open spec fn find_log(logs: Seq<Log>, id: Id) -> Option<Log>
    decreases logs.len(),
{
    if logs.len() == 0 {
        None
    } else if logs[0].id == id {
        Some(logs[0])
    } else {
        find_log(logs.drop_first(), id)
    }
}

/// The end of a log, or `now` for an open log.
pub open spec fn end_or(e: Option<i64>, now: int) -> int {
    match e {
        Some(x) => x as int,
        None => now,
    }
}

/// What editing one log changes, checked against the original logs.
pub open spec fn edit_of(log: Log, original: Seq<Log>, now: int) -> Result<Option<EditLogDiff>, DiffError> {
    match find_log(original, log.id) {
        None => Err(DiffError::UnknownLog { log_id: log.id }),
        Some(o) => if o.activity_id != log.activity_id {
            Err(
                DiffError::ActivityChanged {
                    log_id: log.id,
                    edited_activity_id: log.activity_id,
                    original_activity_id: o.activity_id,
                },
            )
        } else if !(log.starts_at <= end_or(log.ends_at, now)) {
            Err(DiffError::StartAfterEnd { log_id: log.id, starts_at: log.starts_at, ends_at: log.ends_at })
        } else {
            let sn = if loose_eq(Some(log.starts_at), Some(o.starts_at)) {
                None
            } else {
                Some(log.starts_at)
            };
            let en = if loose_eq(log.ends_at, o.ends_at) {
                None
            } else {
                Some(log.ends_at)
            };
            if sn is Some || en is Some {
                Ok(
                    Some(
                        EditLogDiff {
                            log_id: log.id,
                            starts_at_current: o.starts_at,
                            starts_at_new: sn,
                            ends_at_current: o.ends_at,
                            ends_at_new: en,
                        },
                    ),
                )
            } else {
                Ok(None)
            }
        },
    }
}

/// The changes of the edited logs, in their order; the first refused log
/// refuses the edit.
pub open spec fn diffs_of(edited: Seq<Log>, original: Seq<Log>, now: int) -> Result<Seq<EditLogDiff>, DiffError>
    decreases edited.len(),
{
    if edited.len() == 0 {
        Ok(Seq::<EditLogDiff>::empty())
    } else {
        match diffs_of(edited.drop_last(), original, now) {
            Err(e) => Err(e),
            Ok(ds) => match edit_of(edited.last(), original, now) {
                Err(e) => Err(e),
                Ok(None) => Ok(ds),
                Ok(Some(d)) => Ok(ds.push(d)),
            },
        }
    }
}

/// The changes that an edit of the logs makes: refused when lines were added
/// or removed, when several logs are open, or when a log is refused.
pub open spec fn edit_diffs(edited: Seq<Log>, original: Seq<Log>, now: int) -> Result<Seq<EditLogDiff>, DiffError> {
    if edited.len() != original.len() {
        Err(DiffError::LogCountChanged { original: original.len() as usize, edited: edited.len() as usize })
    } else if count_open(edited) > 1 {
        Err(DiffError::SeveralOpenEnded)
    } else {
        diffs_of(edited, original, now)
    }
}

/// Each edited log matches the original log with its id: same activity,
/// the same times up to their seconds, and it does not start after it ends.
pub open spec fn loosely_unchanged(edited: Seq<Log>, original: Seq<Log>, now: int) -> bool {
    forall|i: int|
        0 <= i < edited.len() ==> match #[trigger] find_log(original, edited[i].id) {
            Some(o) => o.activity_id == edited[i].activity_id && loose_eq(Some(edited[i].starts_at), Some(o.starts_at))
                && loose_eq(edited[i].ends_at, o.ends_at) && edited[i].starts_at <= end_or(edited[i].ends_at, now),
            None => false,
        }
}

proof fn lemma_diffs_of_unchanged(edited: Seq<Log>, original: Seq<Log>, now: int)
    requires
        loosely_unchanged(edited, original, now),
    ensures
        diffs_of(edited, original, now) == Ok::<Seq<EditLogDiff>, DiffError>(Seq::empty()),
    decreases edited.len(),
{
    if edited.len() > 0 {
        let prefix = edited.drop_last();
        assert forall|i: int| 0 <= i < prefix.len() implies match #[trigger] find_log(original, prefix[i].id) {
            Some(o) => o.activity_id == prefix[i].activity_id && loose_eq(Some(prefix[i].starts_at), Some(o.starts_at))
                && loose_eq(prefix[i].ends_at, o.ends_at) && prefix[i].starts_at <= end_or(prefix[i].ends_at, now),
            None => false,
        } by {
            assert(prefix[i] == edited[i]);
            assert(find_log(original, edited[i].id) == find_log(original, prefix[i].id));
        }
        lemma_diffs_of_unchanged(prefix, original, now);
        let last = edited.last();
        assert(find_log(original, edited[edited.len() - 1].id) == find_log(original, last.id));
    }
}

/// Logs that come back with the same ids and activities and the same times
/// up to the seconds (as an export written to the minute and read back
/// does) give no change, when at most one of them is open and none starts
/// after it ends.
pub proof fn lemma_loosely_unchanged_edit_has_no_diffs(edited: Seq<Log>, original: Seq<Log>, now: int)
    requires
        edited.len() == original.len(),
        count_open(edited) <= 1,
        loosely_unchanged(edited, original, now),
    ensures
        edit_diffs(edited, original, now) == Ok::<Seq<EditLogDiff>, DiffError>(Seq::empty()),
{
    lemma_diffs_of_unchanged(edited, original, now);
}

/// The first log with an id is found by it.
proof fn lemma_find_log_unique(logs: Seq<Log>, i: int)
    requires
        0 <= i < logs.len(),
        forall|a: int, b: int| 0 <= a < b < logs.len() ==> logs[a].id != logs[b].id,
    ensures
        find_log(logs, logs[i].id) == Some(logs[i]),
    decreases logs.len(),
{
    if i > 0 {
        let rest = logs.drop_first();
        assert(logs[0].id != logs[i].id);
        assert forall|a: int, b: int| 0 <= a < b < rest.len() implies rest[a].id != rest[b].id by {
            assert(rest[a] == logs[a + 1] && rest[b] == logs[b + 1]);
        }
        lemma_find_log_unique(rest, i - 1);
        assert(rest[i - 1] == logs[i]);
    }
}

/// Logs edited into themselves give no change, when their ids differ, at
/// most one of them is open and none starts after it ends.
pub proof fn lemma_unchanged_edit_has_no_diffs(logs: Seq<Log>, now: int)
    requires
        forall|a: int, b: int| 0 <= a < b < logs.len() ==> logs[a].id != logs[b].id,
        count_open(logs) <= 1,
        forall|i: int| 0 <= i < logs.len() ==> (#[trigger] logs[i]).starts_at <= end_or(logs[i].ends_at, now),
    ensures
        edit_diffs(logs, logs, now) == Ok::<Seq<EditLogDiff>, DiffError>(Seq::empty()),
{
    assert forall|i: int| 0 <= i < logs.len() implies match #[trigger] find_log(logs, logs[i].id) {
        Some(o) => o.activity_id == logs[i].activity_id && loose_eq(Some(logs[i].starts_at), Some(o.starts_at))
            && loose_eq(logs[i].ends_at, o.ends_at) && logs[i].starts_at <= end_or(logs[i].ends_at, now),
        None => false,
    } by {
        lemma_find_log_unique(logs, i);
    }
    lemma_loosely_unchanged_edit_has_no_diffs(logs, logs, now);
}

fn find_original(original: &[Log], id: Id) -> (r: Option<Log>)
    ensures
        r == find_log(original@, id),
{
    let mut i: usize = 0;
    assert(original@.skip(0) == original@);
    while i < original.len()
        invariant
            i <= original.len(),
            find_log(original@, id) == find_log(original@.skip(i as int), id),
        decreases original.len() - i,
    {
        assert(original@.skip(i as int)[0] == original@[i as int]);
        if original[i].id == id {
            return Some(original[i]);
        }
        assert(original@.skip(i as int).drop_first() == original@.skip(i + 1));
        i = i + 1;
    }
    None
}

fn edit_one(log: &Log, original: &[Log], now: i64) -> (r: Result<Option<EditLogDiff>, DiffError>)
    ensures
        r == edit_of(*log, original@, now as int),
{
    match find_original(original, log.id) {
        None => Err(DiffError::UnknownLog { log_id: log.id }),
        Some(o) => {
            if o.activity_id != log.activity_id {
                return Err(
                    DiffError::ActivityChanged {
                        log_id: log.id,
                        edited_activity_id: log.activity_id,
                        original_activity_id: o.activity_id,
                    },
                );
            }
            let end = match log.ends_at {
                Some(e) => e,
                None => now,
            };
            if !(log.starts_at <= end) {
                return Err(
                    DiffError::StartAfterEnd {
                        log_id: log.id,
                        starts_at: log.starts_at,
                        ends_at: log.ends_at,
                    },
                );
            }
            let same_start = date_time_opt_loose_eq(&Some(log.starts_at), &Some(o.starts_at)).unwrap();
            let sn = if same_start {
                None
            } else {
                Some(log.starts_at)
            };
            let same_end = date_time_opt_loose_eq(&log.ends_at, &o.ends_at).unwrap();
            let en = if same_end {
                None
            } else {
                Some(log.ends_at)
            };
            if sn.is_some() || en.is_some() {
                Ok(
                    Some(
                        EditLogDiff {
                            log_id: log.id,
                            starts_at_current: o.starts_at,
                            starts_at_new: sn,
                            ends_at_current: o.ends_at,
                            ends_at_new: en,
                        },
                    ),
                )
            } else {
                Ok(None)
            }
        },
    }
}

fn count_open_logs(logs: &[Log]) -> (r: usize)
    ensures
        r == count_open(logs@),
{
    let mut n: usize = 0;
    let mut i: usize = 0;
    assert(logs@.take(0) == Seq::<Log>::empty());
    while i < logs.len()
        invariant
            i <= logs.len(),
            n == count_open(logs@.take(i as int)),
            n <= i,
        decreases logs.len() - i,
    {
        assert(logs@.take(i + 1).drop_last() == logs@.take(i as int));
        if logs[i].ends_at.is_none() {
            n = n + 1;
        }
        i = i + 1;
    }
    assert(logs@.take(logs.len() as int) == logs@);
    n
}

/// Checks edited logs against the original ones, with `now` as the end of
/// an open log, and gives the changes to make.
pub fn try_generate_edit_diffs_at(edited: &[Log], original: &[Log], now: i64) -> (r: Result<Vec<EditLogDiff>, DiffError>)
    ensures
        match r {
            Ok(v) => edit_diffs(edited@, original@, now as int) == Ok::<Seq<EditLogDiff>, DiffError>(v@),
            Err(e) => edit_diffs(edited@, original@, now as int) == Err::<Seq<EditLogDiff>, DiffError>(e),
        },
{
    if edited.len() != original.len() {
        return Err(DiffError::LogCountChanged { original: original.len(), edited: edited.len() });
    }
    if count_open_logs(edited) > 1 {
        return Err(DiffError::SeveralOpenEnded);
    }
    let mut diffs: Vec<EditLogDiff> = Vec::new();
    let mut i: usize = 0;
    assert(edited@.take(0) == Seq::<Log>::empty());
    while i < edited.len()
        invariant
            i <= edited.len(),
            edited.len() == original.len(),
            count_open(edited@) <= 1,
            diffs_of(edited@.take(i as int), original@, now as int) == Ok::<Seq<EditLogDiff>, DiffError>(diffs@),
        decreases edited.len() - i,
    {
        assert(edited@.take(i + 1).drop_last() == edited@.take(i as int));
        assert(edited@.take(i + 1).last() == edited@[i as int]);
        match edit_one(&edited[i], original, now) {
            Err(e) => {
                assert(diffs_of(edited@.take(i + 1), original@, now as int) == Err::<Seq<EditLogDiff>, DiffError>(e));
                proof {
                    lemma_diffs_of_err_prefix(edited@, original@, now as int, i + 1);
                }
                return Err(e);
            },
            Ok(None) => {},
            Ok(Some(d)) => {
                diffs.push(d);
            },
        }
        i = i + 1;
    }
    assert(edited@.take(edited.len() as int) == edited@);
    Ok(diffs)
}

/// Once a prefix of the edited logs is refused, so are all of them, with
/// the same error.
proof fn lemma_diffs_of_err_prefix(edited: Seq<Log>, original: Seq<Log>, now: int, k: int)
    requires
        0 <= k <= edited.len(),
        diffs_of(edited.take(k), original, now) is Err,
    ensures
        diffs_of(edited, original, now) == diffs_of(edited.take(k), original, now),
    decreases edited.len() - k,
{
    if k < edited.len() {
        assert(edited.take(k + 1).drop_last() == edited.take(k));
        lemma_diffs_of_err_prefix(edited, original, now, k + 1);
    } else {
        assert(edited.take(k) == edited);
    }
}

/// An optional time moved to another minute: one of the two is missing, or
/// they fall in different minutes.
pub open spec fn moved(edited: Option<i64>, stored: Option<i64>) -> bool {
    match (edited, stored) {
        (Some(x), Some(y)) => x / 60 != y / 60,
        (None, None) => false,
        _ => true,
    }
}

/// The change `d` is one that the edited log `e` can carry: it names `e`,
/// and each new time it writes is `e`'s own.
pub open spec fn carries(d: EditLogDiff, e: Log) -> bool {
    &&& d.log_id == e.id
    &&& (d.starts_at_new matches Some(s) ==> s == e.starts_at)
    &&& (d.ends_at_new matches Some(x) ==> x == e.ends_at)
}

/// The change `d` writes the edit of `e` over its stored log `o`: it names
/// `e`, keeps `o`'s times as the current ones, and writes each of `e`'s
/// times that moved.
pub open spec fn writes(d: EditLogDiff, e: Log, o: Log) -> bool {
    &&& d.log_id == e.id
    &&& d.starts_at_current == o.starts_at
    &&& d.ends_at_current == o.ends_at
    &&& (moved(Some(e.starts_at), Some(o.starts_at)) ==> d.starts_at_new == Some(e.starts_at))
    &&& (moved(e.ends_at, o.ends_at) ==> d.ends_at_new == Some(e.ends_at))
}

/// The edited log `e`, whose stored log is `o`, has a change among `v`
/// that writes each of its times that moved.
pub open spec fn change_written(v: Seq<EditLogDiff>, e: Log, o: Log) -> bool {
    (moved(Some(e.starts_at), Some(o.starts_at)) || moved(e.ends_at, o.ends_at)) ==> exists|j: int|
        0 <= j < v.len() && #[trigger] writes(v[j], e, o)
}

/// The change `d` is carried by some edited log.
pub open spec fn carried_by_some(d: EditLogDiff, edited: Seq<Log>) -> bool {
    exists|i: int| 0 <= i < edited.len() && #[trigger] carries(d, edited[i])
}

/// Each change is carried by some edited log.
pub open spec fn all_carried(v: Seq<EditLogDiff>, edited: Seq<Log>) -> bool {
    forall|j: int| 0 <= j < v.len() ==> #[trigger] carried_by_some(v[j], edited)
}

/// Each edited log with a stored log has its moved times written.
pub open spec fn all_written(v: Seq<EditLogDiff>, edited: Seq<Log>, original: Seq<Log>) -> bool {
    forall|i: int|
        #![trigger edited[i]]
        0 <= i < edited.len() ==> (find_log(original, edited[i].id) matches Some(o) ==> change_written(v, edited[i], o))
}

/// An accepted edit of one log gives no change when neither of its times
/// moved to another minute, and otherwise a change that names the log,
/// keeps its stored times as the current ones, and writes each moved time
/// as edited (never the stored one).
pub proof fn lemma_edit_of_writes(e: Log, original: Seq<Log>, now: int)
    ensures
        edit_of(e, original, now) matches Ok(r) ==> (find_log(original, e.id) matches Some(o) && match r {
            Some(d) => carries(d, e) && writes(d, e, o),
            None => !moved(Some(e.starts_at), Some(o.starts_at)) && !moved(e.ends_at, o.ends_at),
        }),
{
}

proof fn lemma_diffs_of_carried(edited: Seq<Log>, original: Seq<Log>, now: int)
    ensures
        diffs_of(edited, original, now) matches Ok(v) ==> all_carried(v, edited),
    decreases edited.len(),
{
    if edited.len() > 0 {
        let pre = edited.drop_last();
        let last = edited.last();
        lemma_diffs_of_carried(pre, original, now);
        lemma_edit_of_writes(last, original, now);
        if let Ok(v) = diffs_of(edited, original, now) {
            let ds = diffs_of(pre, original, now)->Ok_0;
            assert forall|j: int| 0 <= j < v.len() implies #[trigger] carried_by_some(v[j], edited) by {
                if j < ds.len() {
                    assert(v[j] == ds[j]);
                    assert(carried_by_some(ds[j], pre));
                    let i = choose|i: int| 0 <= i < pre.len() && #[trigger] carries(ds[j], pre[i]);
                    assert(edited[i] == pre[i]);
                    assert(carries(v[j], edited[i]));
                } else {
                    let d = edit_of(last, original, now)->Ok_0->Some_0;
                    assert(v == ds.push(d));
                    assert(edited[edited.len() - 1] == last);
                    assert(carries(v[j], edited[edited.len() - 1]));
                }
            }
            assert(all_carried(v, edited));
        }
    }
}

proof fn lemma_diffs_of_written(edited: Seq<Log>, original: Seq<Log>, now: int)
    ensures
        diffs_of(edited, original, now) matches Ok(v) ==> all_written(v, edited, original),
    decreases edited.len(),
{
    if edited.len() > 0 {
        let pre = edited.drop_last();
        let last = edited.last();
        lemma_diffs_of_written(pre, original, now);
        lemma_edit_of_writes(last, original, now);
        if let Ok(v) = diffs_of(edited, original, now) {
            let ds = diffs_of(pre, original, now)->Ok_0;
            assert forall|i: int|
                #![trigger edited[i]]
                0 <= i < edited.len() implies (find_log(original, edited[i].id) matches Some(o) ==> change_written(
                    v,
                    edited[i],
                    o,
                )) by {
                if let Some(o) = find_log(original, edited[i].id) {
                    if moved(Some(edited[i].starts_at), Some(o.starts_at)) || moved(edited[i].ends_at, o.ends_at) {
                        if i < pre.len() {
                            assert(edited[i] == pre[i]);
                            let j = choose|j: int| 0 <= j < ds.len() && #[trigger] writes(ds[j], pre[i], o);
                            assert(v[j] == ds[j]);
                            assert(writes(v[j], edited[i], o));
                        } else {
                            assert(edited[i] == last);
                            assert(writes(v[ds.len() as int], edited[i], o));
                        }
                    }
                }
            }
        }
    }
}

/// An accepted edit changes only what was edited: each change names an
/// edited log and writes that log's own new start and end, never the stored
/// ones; and each edited log whose start or end moved to another minute has
/// a change that writes the moved time as edited, beside the stored times.
pub proof fn lemma_edit_diffs_write_the_edits(edited: Seq<Log>, original: Seq<Log>, now: int)
    ensures
        edit_diffs(edited, original, now) matches Ok(v) ==> all_carried(v, edited) && all_written(v, edited, original),
{
    lemma_diffs_of_carried(edited, original, now);
    lemma_diffs_of_written(edited, original, now);
}

/// Some edited log is refused on its own: its id is unknown, its activity
/// changed, or it starts after it ends.
pub open spec fn some_log_refused(edited: Seq<Log>, original: Seq<Log>, now: int) -> bool {
    exists|i: int| 0 <= i < edited.len() && #[trigger] edit_of(edited[i], original, now) is Err
}

proof fn lemma_diffs_refused_iff(edited: Seq<Log>, original: Seq<Log>, now: int)
    ensures
        diffs_of(edited, original, now) is Err <==> some_log_refused(edited, original, now),
    decreases edited.len(),
{
    if edited.len() > 0 {
        let pre = edited.drop_last();
        lemma_diffs_refused_iff(pre, original, now);
        if some_log_refused(pre, original, now) {
            let i = choose|i: int| 0 <= i < pre.len() && #[trigger] edit_of(pre[i], original, now) is Err;
            assert(edited[i] == pre[i]);
        }
        if some_log_refused(edited, original, now) && !some_log_refused(pre, original, now) {
            let i = choose|i: int| 0 <= i < edited.len() && #[trigger] edit_of(edited[i], original, now) is Err;
            if i < pre.len() {
                assert(pre[i] == edited[i]);
            }
        }
        if edit_of(edited.last(), original, now) is Err {
            assert(edited[edited.len() - 1] == edited.last());
        }
    }
}

/// An edit is refused exactly when lines were added or removed, when
/// several logs are open, or when some log is refused on its own.
pub proof fn lemma_edit_refused_iff(edited: Seq<Log>, original: Seq<Log>, now: int)
    ensures
        edit_diffs(edited, original, now) is Err <==> edited.len() != original.len() || count_open(edited) > 1
            || some_log_refused(edited, original, now),
{
    lemma_diffs_refused_iff(edited, original, now);
}

/// When no edited log is open, the changes do not depend on the instant
/// taken as now.
pub proof fn lemma_closed_edit_ignores_now(edited: Seq<Log>, original: Seq<Log>, a: int, b: int)
    requires
        count_open(edited) == 0,
    ensures
        edit_diffs(edited, original, a) == edit_diffs(edited, original, b),
{
    lemma_closed_diffs_ignore_now(edited, original, a, b);
}

proof fn lemma_closed_diffs_ignore_now(edited: Seq<Log>, original: Seq<Log>, a: int, b: int)
    requires
        count_open(edited) == 0,
    ensures
        diffs_of(edited, original, a) == diffs_of(edited, original, b),
    decreases edited.len(),
{
    if edited.len() > 0 {
        lemma_closed_diffs_ignore_now(edited.drop_last(), original, a, b);
        assert(edited.last().ends_at is Some);
        assert(edit_of(edited.last(), original, a) == edit_of(edited.last(), original, b));
    }
}

/// Checks edited logs against the original ones and gives the changes to
/// make. A count that changed and several open logs are refused first, and
/// the clock is read only for the one open log: `DiffError::Clock` when it
/// then gives no usable instant.
pub fn try_generate_edit_diffs(edited: &[Log], original: &[Log]) -> (r: Result<Vec<EditLogDiff>, DiffError>)
    ensures
        edited@.len() != original@.len() ==> r == Err::<Vec<EditLogDiff>, DiffError>(
            DiffError::LogCountChanged { original: original@.len() as usize, edited: edited@.len() as usize },
        ),
        edited@.len() == original@.len() && count_open(edited@) > 1 ==> r == Err::<Vec<EditLogDiff>, DiffError>(
            DiffError::SeveralOpenEnded,
        ),
        count_open(edited@) != 1 ==> match r {
            Ok(v) => edit_diffs(edited@, original@, 0) == Ok::<Seq<EditLogDiff>, DiffError>(v@),
            Err(e) => edit_diffs(edited@, original@, 0) == Err::<Seq<EditLogDiff>, DiffError>(e),
        },
        edited@.len() == original@.len() && count_open(edited@) == 1 ==> (r == Err::<Vec<EditLogDiff>, DiffError>(
            DiffError::Clock,
        ) || exists|now: Instant|
            #![auto]
            now.wf() && match r {
                Ok(v) => edit_diffs(edited@, original@, now.secs as int) == Ok::<Seq<EditLogDiff>, DiffError>(v@),
                Err(e) => edit_diffs(edited@, original@, now.secs as int) == Err::<Seq<EditLogDiff>, DiffError>(e),
            }),
{
    let open = count_open_logs(edited);
    if edited.len() != original.len() || open != 1 {
        return try_generate_edit_diffs_at(edited, original, 0);
    }
    match utc_now() {
        Some(now) => try_generate_edit_diffs_at(edited, original, now.secs),
        None => Err(DiffError::Clock),
    }
}


/// Whether a line of an edited file holds data: it is not empty and is not
/// a comment (a `#` after leading white space).
pub open spec fn is_data_line(l: Seq<char>) -> bool {
    l.len() > 0 && !starts_with_char(trim_start(l), '#')
}

/// The data lines among the lines, in order.
pub open spec fn data_lines_of(ls: Seq<Seq<char>>) -> Seq<Seq<char>>
    decreases ls.len(),
{
    if ls.len() == 0 {
        Seq::<Seq<char>>::empty()
    } else if is_data_line(ls.last()) {
        data_lines_of(ls.drop_last()).push(ls.last())
    } else {
        data_lines_of(ls.drop_last())
    }
}

/// The data lines of an edited file.
pub open spec fn data_lines(content: Seq<char>) -> Seq<Seq<char>> {
    data_lines_of(lines(content))
}

/// One data line read: the ids and the local start and end times.
#[derive(Clone, Copy, Debug, PartialEq, Eq, Structural)]
pub struct EditedLine {
    pub activity_id: Id,
    pub log_id: Id,
    pub starts_at: DateTimeFields,
    pub ends_at: Option<DateTimeFields>,
}

/// Why a data line of an edited file is refused; each names the field and
/// the whole line.
#[derive(Debug)]
pub enum CsvError {
    ColumnCount { count: usize, line: String },
    ActivityId { field: String, line: String },
    LogId { field: String, line: String },
    StartsAt { field: String, line: String },
    StartsAtLocal { field: String, line: String },
    EndsAt { field: String, line: String },
    EndsAtLocal { field: String, line: String },
}

/// A `CsvError` with its texts taken by view.
pub enum CsvErrorView {
    ColumnCount { count: nat, line: Seq<char> },
    ActivityId { field: Seq<char>, line: Seq<char> },
    LogId { field: Seq<char>, line: Seq<char> },
    StartsAt { field: Seq<char>, line: Seq<char> },
    StartsAtLocal { field: Seq<char>, line: Seq<char> },
    EndsAt { field: Seq<char>, line: Seq<char> },
    EndsAtLocal { field: Seq<char>, line: Seq<char> },
}

impl View for CsvError {
    type V = CsvErrorView;

    open spec fn view(&self) -> CsvErrorView {
        match self {
            CsvError::ColumnCount { count, line } => CsvErrorView::ColumnCount {
                count: *count as nat,
                line: line@,
            },
            CsvError::ActivityId { field, line } => CsvErrorView::ActivityId {
                field: field@,
                line: line@,
            },
            CsvError::LogId { field, line } => CsvErrorView::LogId { field: field@, line: line@ },
            CsvError::StartsAt { field, line } => CsvErrorView::StartsAt {
                field: field@,
                line: line@,
            },
            CsvError::StartsAtLocal { field, line } => CsvErrorView::StartsAtLocal {
                field: field@,
                line: line@,
            },
            CsvError::EndsAt { field, line } => CsvErrorView::EndsAt { field: field@, line: line@ },
            CsvError::EndsAtLocal { field, line } => CsvErrorView::EndsAtLocal {
                field: field@,
                line: line@,
            },
        }
    }
}

/// The message of a refused line.
pub open spec fn csv_error_text(e: CsvErrorView) -> Seq<char> {
    match e {
        CsvErrorView::ColumnCount { count, line } => "expected 4 columns in the CSV, but got "@
            + nat_digits(count) + ": "@ + line,
        CsvErrorView::ActivityId { field, line } => "failed to parse activity ID from '"@ + field
            + "': "@ + line,
        CsvErrorView::LogId { field, line } => "failed to parse log ID from '"@ + field + "': "@
            + line,
        CsvErrorView::StartsAt { field, line } => "failed to parse starts_at from '"@ + field
            + "': "@ + line,
        CsvErrorView::StartsAtLocal { field, line } =>
            "failed to convert starts_at to local datetime from '"@ + field + "': "@ + line,
        CsvErrorView::EndsAt { field, line } => "failed to parse ends_at from '"@ + field + "': "@
            + line,
        CsvErrorView::EndsAtLocal { field, line } =>
            "failed to convert ends_at to local datetime from '"@ + field + "': "@ + line,
    }
}

fn field_message(prefix: &str, field: &String, line: &String) -> (r: String)
    ensures
        r@ == prefix@ + field@ + "': "@ + line@,
{
    let mut v: Vec<char> = Vec::new();
    push_str(&mut v, prefix);
    push_str(&mut v, field.as_str());
    push_str(&mut v, "': ");
    push_str(&mut v, line.as_str());
    string_from_chars(&v)
}

impl CsvError {
    /// The message of the error.
    pub fn message(&self) -> (r: String)
        ensures
            r@ == csv_error_text(self@),
    {
        match self {
            CsvError::ColumnCount { count, line } => {
                let mut v: Vec<char> = Vec::new();
                push_str(&mut v, "expected 4 columns in the CSV, but got ");
                push_nat_digits(&mut v, *count as u64);
                push_str(&mut v, ": ");
                push_str(&mut v, line.as_str());
                string_from_chars(&v)
            },
            CsvError::ActivityId { field, line } => field_message(
                "failed to parse activity ID from '",
                field,
                line,
            ),
            CsvError::LogId { field, line } => field_message(
                "failed to parse log ID from '",
                field,
                line,
            ),
            CsvError::StartsAt { field, line } => field_message(
                "failed to parse starts_at from '",
                field,
                line,
            ),
            CsvError::StartsAtLocal { field, line } => field_message(
                "failed to convert starts_at to local datetime from '",
                field,
                line,
            ),
            CsvError::EndsAt { field, line } => field_message(
                "failed to parse ends_at from '",
                field,
                line,
            ),
            CsvError::EndsAtLocal { field, line } => field_message(
                "failed to convert ends_at to local datetime from '",
                field,
                line,
            ),
        }
    }
}

/// The trimmed comma-separated fields of a line.
pub open spec fn line_fields(line: Seq<char>) -> Seq<Seq<char>> {
    split_char(line, ',').map_values(|p: Seq<char>| trim(p))
}

/// Reads the ids and the start of a data line `activity_id,log_id,starts_at,ends_at`.
pub open spec fn parse_line_head(line: Seq<char>) -> Result<(Id, Id, DateTimeFields), CsvErrorView> {
    let f = line_fields(line);
    if f.len() != 4 {
        Err(CsvErrorView::ColumnCount { count: f.len(), line })
    } else {
        match parse_i64(f[0]) {
            None => Err(CsvErrorView::ActivityId { field: f[0], line }),
            Some(activity_id) => match parse_i64(f[1]) {
                None => Err(CsvErrorView::LogId { field: f[1], line }),
                Some(log_id) => match minutes_read(f[2]) {
                    None => Err(CsvErrorView::StartsAt { field: f[2], line }),
                    Some(starts_at) => Ok((activity_id, log_id, starts_at)),
                },
            },
        }
    }
}

/// Reads a data line `activity_id,log_id,starts_at,ends_at`, the times as
/// `YYYY-MM-DD HH:MM` and the end possibly empty.
pub open spec fn parse_edited_line(line: Seq<char>) -> Result<EditedLine, CsvErrorView> {
    match parse_line_head(line) {
        Err(e) => Err(e),
        Ok((activity_id, log_id, starts_at)) => {
            let f = line_fields(line);
            if f[3].len() == 0 {
                Ok(EditedLine { activity_id, log_id, starts_at, ends_at: None })
            } else {
                match minutes_read(f[3]) {
                    None => Err(CsvErrorView::EndsAt { field: f[3], line }),
                    Some(e) => Ok(EditedLine { activity_id, log_id, starts_at, ends_at: Some(e) }),
                }
            }
        },
    }
}

/// Reads the data lines in order; the first refused line refuses the file.
pub open spec fn parse_lines(ls: Seq<Seq<char>>) -> Result<Seq<EditedLine>, CsvErrorView>
    decreases ls.len(),
{
    if ls.len() == 0 {
        Ok(Seq::<EditedLine>::empty())
    } else {
        match parse_lines(ls.drop_last()) {
            Err(e) => Err(e),
            Ok(v) => match parse_edited_line(ls.last()) {
                Err(e) => Err(e),
                Ok(x) => Ok(v.push(x)),
            },
        }
    }
}

proof fn lemma_trim_start_first_non_ws(l: Seq<char>, k: int)
    requires
        0 <= k < l.len(),
        forall|j: int| 0 <= j < k ==> is_white_space(#[trigger] l[j]),
        !is_white_space(l[k]),
    ensures
        trim_start(l) == l.subrange(k, l.len() as int),
    decreases k,
{
    if k > 0 {
        lemma_trim_start_first_non_ws(l.drop_first(), k - 1);
        assert(l.drop_first().subrange(k - 1, l.len() - 1) == l.subrange(k, l.len() as int));
    } else {
        assert(l.subrange(0, l.len() as int) == l);
    }
}

proof fn lemma_trim_start_all_ws(l: Seq<char>)
    requires
        forall|j: int| 0 <= j < l.len() ==> is_white_space(#[trigger] l[j]),
    ensures
        trim_start(l).len() == 0,
    decreases l.len(),
{
    if l.len() > 0 {
        lemma_trim_start_all_ws(l.drop_first());
    }
}

fn is_data_line_chars(l: &Vec<char>) -> (r: bool)
    ensures
        r == is_data_line(l@),
{
    if l.len() == 0 {
        return false;
    }
    let mut k: usize = 0;
    while k < l.len() && is_whitespace(l[k])
        invariant
            k <= l.len(),
            forall|j: int| 0 <= j < k ==> is_white_space(#[trigger] l@[j]),
        decreases l.len() - k,
    {
        k = k + 1;
    }
    if k == l.len() {
        proof {
            lemma_trim_start_all_ws(l@);
        }
        true
    } else {
        proof {
            lemma_trim_start_first_non_ws(l@, k as int);
        }
        l[k] != '#'
    }
}

/// The ids, the start and the trimmed fields of a data line.
struct LineHead {
    activity_id: Id,
    log_id: Id,
    starts_at: DateTimeFields,
    fields: Vec<Vec<char>>,
    line: String,
}

fn parse_head(line: &Vec<char>) -> (r: Result<LineHead, CsvError>)
    ensures
        match r {
            Ok(h) => parse_line_head(line@) == Ok::<(Id, Id, DateTimeFields), CsvErrorView>(
                (h.activity_id, h.log_id, h.starts_at),
            ) && views(h.fields@) == line_fields(line@) && h.line@ == line@ && h.starts_at.wf()
                && h.starts_at.date.wf(),
            Err(e) => parse_line_head(line@) == Err::<(Id, Id, DateTimeFields), CsvErrorView>(e@),
        },
{
    let pieces = split_chars(line, ',');
    let mut fields: Vec<Vec<char>> = Vec::new();
    let mut i: usize = 0;
    while i < pieces.len()
        invariant
            i <= pieces.len(),
            views(pieces@) == split_char(line@, ','),
            views(fields@) == split_char(line@, ',').take(i as int).map_values(|p: Seq<char>| trim(p)),
        decreases pieces.len() - i,
    {
        let ghost prev = fields@;
        let t = trim_chars(&pieces[i]);
        assert(pieces@[i as int]@ == split_char(line@, ',')[i as int]);
        fields.push(t);
        i = i + 1;
        assert(views(fields@) =~= split_char(line@, ',').take(i as int).map_values(|p: Seq<char>| trim(p))) by {
            assert(views(fields@) =~= views(prev).push(t@));
        }
    }
    assert(split_char(line@, ',').take(pieces.len() as int) == split_char(line@, ','));
    let ghost f = line_fields(line@);
    assert(views(fields@) == f);
    let line_s = string_from_chars(line);
    if fields.len() != 4 {
        return Err(CsvError::ColumnCount { count: fields.len(), line: line_s });
    }
    assert(fields@[0]@ == f[0] && fields@[1]@ == f[1] && fields@[2]@ == f[2] && fields@[3]@ == f[3]);
    let activity_id = match parse_i64_chars(&fields[0]) {
        Some(v) => v,
        None => {
            return Err(CsvError::ActivityId { field: string_from_chars(&fields[0]), line: line_s });
        },
    };
    let log_id = match parse_i64_chars(&fields[1]) {
        Some(v) => v,
        None => {
            return Err(CsvError::LogId { field: string_from_chars(&fields[1]), line: line_s });
        },
    };
    let start_text = string_from_chars(&fields[2]);
    let starts_at = match read_minutes(start_text.as_str()) {
        Some(v) => v,
        None => {
            return Err(CsvError::StartsAt { field: start_text, line: line_s });
        },
    };
    Ok(LineHead { activity_id, log_id, starts_at, fields, line: line_s })
}

/// The end of a data line, when it is not empty.
fn parse_tail(h: &LineHead) -> (r: Result<Option<DateTimeFields>, CsvError>)
    requires
        h.fields.len() == 4,
    ensures
        match r {
            Ok(None) => h.fields@[3]@.len() == 0,
            Ok(Some(e)) => h.fields@[3]@.len() > 0 && minutes_read(h.fields@[3]@)
                == Some(e) && e.wf() && e.date.wf(),
            Err(e) => h.fields@[3]@.len() > 0 && minutes_read(h.fields@[3]@) is None
                && e@ == CsvErrorView::EndsAt { field: h.fields@[3]@, line: h.line@ },
        },
{
    if h.fields[3].len() == 0 {
        return Ok(None);
    }
    let end_text = string_from_chars(&h.fields[3]);
    match read_minutes(end_text.as_str()) {
        Some(e) => Ok(Some(e)),
        None => Err(CsvError::EndsAt { field: end_text, line: h.line.clone() }),
    }
}

fn parse_line(line: &Vec<char>) -> (r: Result<EditedLine, CsvError>)
    ensures
        match r {
            Ok(x) => parse_edited_line(line@) == Ok::<EditedLine, CsvErrorView>(x),
            Err(e) => parse_edited_line(line@) == Err::<EditedLine, CsvErrorView>(e@),
        },
{
    let h = parse_head(line)?;
    let ends_at = parse_tail(&h)?;
    Ok(EditedLine { activity_id: h.activity_id, log_id: h.log_id, starts_at: h.starts_at, ends_at })
}

proof fn lemma_parse_lines_err_prefix(ls: Seq<Seq<char>>, k: int)
    requires
        0 <= k <= ls.len(),
        parse_lines(ls.take(k)) is Err,
    ensures
        parse_lines(ls) == parse_lines(ls.take(k)),
    decreases ls.len() - k,
{
    if k < ls.len() {
        assert(ls.take(k + 1).drop_last() == ls.take(k));
        lemma_parse_lines_err_prefix(ls, k + 1);
    } else {
        assert(ls.take(k) == ls);
    }
}

/// The data lines of an edited file.
pub fn data_lines_exec(content: &str) -> (r: Vec<Vec<char>>)
    ensures
        views(r@) == data_lines(content@),
{
    let chars = chars_of(content);
    let all = lines_of(&chars);
    let mut r: Vec<Vec<char>> = Vec::new();
    let mut i: usize = 0;
    assert(views(all@).take(0) == Seq::<Seq<char>>::empty());
    while i < all.len()
        invariant
            i <= all.len(),
            views(all@) == lines(content@),
            views(r@) == data_lines_of(views(all@).take(i as int)),
        decreases all.len() - i,
    {
        assert(views(all@).take(i + 1).drop_last() == views(all@).take(i as int));
        assert(views(all@).take(i + 1).last() == all@[i as int]@);
        if is_data_line_chars(&all[i]) {
            let ghost prev = r@;
            r.push(all[i].clone());
            assert(views(r@) =~= views(prev).push(all@[i as int]@));
        }
        i = i + 1;
    }
    assert(views(all@).take(all.len() as int) == views(all@));
    r
}

/// Reads the data lines of an edited file (comment lines start with `#`):
/// the first refused line refuses the file.
pub fn parse_edited_content(content: &str) -> (r: Result<Vec<EditedLine>, CsvError>)
    ensures
        match r {
            Ok(v) => parse_lines(data_lines(content@)) == Ok::<Seq<EditedLine>, CsvErrorView>(v@),
            Err(e) => parse_lines(data_lines(content@)) == Err::<Seq<EditedLine>, CsvErrorView>(e@),
        },
{
    let ls = data_lines_exec(content);
    let ghost d = data_lines(content@);
    let mut out: Vec<EditedLine> = Vec::new();
    let mut i: usize = 0;
    assert(d.take(0) == Seq::<Seq<char>>::empty());
    while i < ls.len()
        invariant
            i <= ls.len(),
            views(ls@) == d,
            d == data_lines(content@),
            parse_lines(d.take(i as int)) == Ok::<Seq<EditedLine>, CsvErrorView>(out@),
        decreases ls.len() - i,
    {
        assert(d.take(i + 1).drop_last() == d.take(i as int));
        assert(d.take(i + 1).last() == ls@[i as int]@);
        match parse_line(&ls[i]) {
            Ok(x) => {
                out.push(x);
            },
            Err(e) => {
                proof {
                    lemma_parse_lines_err_prefix(d, i + 1);
                }
                return Err(e);
            },
        }
        i = i + 1;
    }
    assert(d.take(ls.len() as int) == d);
    Ok(out)
}


/// A log carries the ids of a data line, and its start and end (which it
/// has exactly when the line gives one) are instants whose local wall
/// clock the line gives.
pub open spec fn log_of_line(line: Seq<char>, log: Log) -> bool {
    match parse_edited_line(line) {
        Ok(x) => log.id == x.log_id && log.activity_id == x.activity_id && local_fields_of(
            log.starts_at as int,
            x.starts_at,
        ) && match (log.ends_at, x.ends_at) {
            (Some(t), Some(f)) => local_fields_of(t as int, f),
            (None, None) => true,
            _ => false,
        },
        Err(_) => false,
    }
}

/// A data line whose start or end is refused by the local time zone.
pub open spec fn local_time_error(line: Seq<char>, e: CsvErrorView) -> bool {
    let f = line_fields(line);
    ||| (parse_line_head(line) is Ok && e == CsvErrorView::StartsAtLocal { field: f[2], line })
    ||| (parse_edited_line(line) matches Ok(x) && x.ends_at is Some && e
        == CsvErrorView::EndsAtLocal { field: f[3], line })
}

/// Reads the logs of an edited file: each data line gives a log, its local
/// times turned into timestamps. A line is refused as `parse_edited_line`
/// says, or when the local time zone has no single instant for one of its
/// times; the first refused line refuses the file. Which instants the local
/// times are depends on the machine's time zone and is not stated.
pub fn convert_modified_content_to_log_lines(content: &str) -> (r: Result<Vec<Log>, CsvError>)
    ensures
        match r {
            Ok(logs) => logs@.len() == data_lines(content@).len() && (forall|i: int|
                0 <= i < logs@.len() ==> log_of_line(data_lines(content@)[i], #[trigger] logs@[i])),
            Err(e) => exists|k: int|
                0 <= k < data_lines(content@).len() && (forall|j: int|
                    0 <= j < k ==> #[trigger] parse_edited_line(data_lines(content@)[j]) is Ok) && (
                parse_edited_line(data_lines(content@)[k]) == Err::<EditedLine, CsvErrorView>(e@)
                    || local_time_error(data_lines(content@)[k], e@)),
        },
{
    let ls = data_lines_exec(content);
    let ghost d = data_lines(content@);
    let mut logs: Vec<Log> = Vec::new();
    let mut i: usize = 0;
    while i < ls.len()
        invariant
            i <= ls.len(),
            views(ls@) == d,
            d == data_lines(content@),
            logs@.len() == i,
            forall|j: int| 0 <= j < i ==> #[trigger] parse_edited_line(d[j]) is Ok,
            forall|j: int| 0 <= j < i ==> log_of_line(d[j], #[trigger] logs@[j]),
        decreases ls.len() - i,
    {
        assert(ls@[i as int]@ == d[i as int]);
        let h = match parse_head(&ls[i]) {
            Ok(h) => h,
            Err(e) => {
                return Err(e);
            },
        };
        let starts_at = match local_to_timestamp(&h.starts_at) {
            Some(t) => t,
            None => {
                let field = string_from_chars(&h.fields[2]);
                let line = h.line;
                return Err(CsvError::StartsAtLocal { field, line });
            },
        };
        let ends_at = match parse_tail(&h) {
            Ok(None) => None,
            Ok(Some(e)) => match local_to_timestamp(&e) {
                Some(t) => Some(t),
                None => {
                    let field = string_from_chars(&h.fields[3]);
                    let line = h.line;
                    return Err(CsvError::EndsAtLocal { field, line });
                },
            },
            Err(e) => {
                return Err(e);
            },
        };
        logs.push(Log { id: h.log_id, activity_id: h.activity_id, starts_at, ends_at });
        i = i + 1;
    }
    Ok(logs)
}

} // verus!

use vstd::prelude::*;

use crate::cli::GroupBy;
use crate::date::{
    ts_inner, CHRONO_MAX_TIMESTAMP, chrono_iso_week, date_text, is_iso_week, iso_week_of, local_date_time_of, local_fields_of, push_date, two_digits, utc_now,
    DateTimeFields, Instant,
};
use crate::models::{Id, PrintableActivityLog, PrintableLog, SimpleActivity};
use crate::report::{has_all, has_all_tags, wanted_view};
use crate::sorting::{lemma_seq_lt_asymmetric, lemma_seq_lt_transitive};
use crate::text::{views, chars_eq_str, chars_lt, int_text, push_int, push_padded, push_str, seq_lt, string_from_chars};

verus! {

/// What a row of a log listing shows: the log's times and its activity,
/// tags as a sequence.
pub open spec fn row_view(r: PrintableActivityLog) -> (PrintableLog, Id, String, Option<String>, Seq<String>) {
    (r.log, r.activity.id, r.activity.name, r.activity.description, r.activity.tags@)
}

/// The views of the rows.
pub open spec fn row_views(rows: Seq<PrintableActivityLog>) -> Seq<(PrintableLog, Id, String, Option<String>, Seq<String>)> {
    rows.map_values(|r: PrintableActivityLog| row_view(r))
}

/// The key of the group of a log whose end (or, open, the present) shows
/// the local wall-clock fields `f`.
pub open spec fn group_key(group_by: GroupBy, f: DateTimeFields) -> Seq<char> {
    match group_by {
        GroupBy::Ungrouped => "all"@,
        GroupBy::Day => date_text(f.date),
        GroupBy::Week => {
            let w = chrono_iso_week(f.date.year, f.date.month, f.date.day);
            int_text(w.0 as int) + "-W"@ + int_text(w.1 as int)
        },
        GroupBy::Month => int_text(f.date.year as int) + "-"@ + two_digits(f.date.month as int),
        GroupBy::Year => int_text(f.date.year as int),
    }
}

/// The views of the rows whose key is `k`, in order.
pub open spec fn rows_with_key(
    views: Seq<(PrintableLog, Id, String, Option<String>, Seq<String>)>,
    keys: Seq<Seq<char>>,
    k: Seq<char>,
) -> Seq<(PrintableLog, Id, String, Option<String>, Seq<String>)>
    decreases views.len(),
{
    if views.len() == 0 || keys.len() != views.len() {
        Seq::empty()
    } else if keys.last() == k {
        rows_with_key(views.drop_last(), keys.drop_last(), k).push(views.last())
    } else {
        rows_with_key(views.drop_last(), keys.drop_last(), k)
    }
}

/// `groups` holds the rows by key: keys in ascending order, each group the
/// rows with its key, in order, each key of a row in some group, and each
/// group's key the key of some row.
pub open spec fn grouped_by_keys(
    rows: Seq<PrintableActivityLog>,
    keys: Seq<Seq<char>>,
    groups: Seq<(String, Vec<PrintableActivityLog>)>,
) -> bool {
    &&& keys.len() == rows.len()
    &&& forall|a: int, b: int| 0 <= a < b < groups.len() ==> seq_lt(#[trigger] groups[a].0@, #[trigger] groups[b].0@)
    &&& forall|g: int|
        0 <= g < groups.len() ==> row_views((#[trigger] groups[g]).1@) == rows_with_key(
            row_views(rows),
            keys,
            groups[g].0@,
        )
    &&& forall|i: int| 0 <= i < keys.len() ==> #[trigger] has_group(groups, keys[i])
    &&& forall|g: int| 0 <= g < groups.len() ==> keys.contains((#[trigger] groups[g]).0@)
}

/// Some group has the key `k`.
pub open spec fn has_group(groups: Seq<(String, Vec<PrintableActivityLog>)>, k: Seq<char>) -> bool {
    exists|g: int| 0 <= g < groups.len() && (#[trigger] groups[g]).0@ == k
}

/// The end of a row's log, or `now` while it goes on.
pub open spec fn row_end(row: PrintableActivityLog, now: int) -> int {
    match row.log.ends_at {
        Some(e) => e as int,
        None => now,
    }
}

/// `key` is the key in the grouping of the row's end (or, open, of `now`)
/// on the local wall clock.
pub open spec fn key_of_row(group_by: GroupBy, row: PrintableActivityLog, now: int, key: Seq<char>) -> bool {
    exists|f: DateTimeFields|
        f.wf() && f.date.wf() && local_fields_of(row_end(row, now), f) && key == #[trigger] group_key(group_by, f)
}

/// Each key is the key of its row, as `key_of_row` says.
pub open spec fn keys_of_rows(group_by: GroupBy, rows: Seq<PrintableActivityLog>, now: int, keys: Seq<Seq<char>>) -> bool {
    &&& keys.len() == rows.len()
    &&& forall|i: int| 0 <= i < keys.len() ==> #[trigger] key_of_row(group_by, rows[i], now, keys[i])
}

/// A copy of a row.
pub fn copy_row(r: &PrintableActivityLog) -> (c: PrintableActivityLog)
    ensures
        row_view(c) == row_view(*r),
{
    PrintableActivityLog { log: r.log, activity: r.activity.copy() }
}

fn copy_rows(rows: &[PrintableActivityLog]) -> (c: Vec<PrintableActivityLog>)
    ensures
        row_views(c@) == row_views(rows@),
{
    let mut c: Vec<PrintableActivityLog> = Vec::new();
    let mut i: usize = 0;
    while i < rows.len()
        invariant
            i <= rows@.len(),
            row_views(c@) == row_views(rows@.take(i as int)),
        decreases rows@.len() - i,
    {
        let ghost old_c = c@;
        c.push(copy_row(&rows[i]));
        assert(row_views(c@) =~= row_views(old_c).push(row_view(rows@[i as int])));
        assert(row_views(rows@.take(i + 1)) =~= row_views(rows@.take(i as int)).push(row_view(rows@[i as int])));
        i = i + 1;
    }
    assert(rows@.take(rows@.len() as int) =~= rows@);
    c
}

/// The key of the group of a log from local wall-clock fields.
fn group_key_string(group_by: GroupBy, f: &DateTimeFields) -> (r: Vec<char>)
    requires
        f.wf(),
        f.date.wf(),
    ensures
        r@ == group_key(group_by, *f),
        group_by == GroupBy::Week ==> exists|w: (i32, u32)|
            is_iso_week(f.date, w) && 1 <= w.1 <= 53 && r@ == int_text(w.0 as int) + "-W"@ + int_text(w.1 as int),
{
    let mut out: Vec<char> = Vec::new();
    match group_by {
        GroupBy::Ungrouped => {
            push_str(&mut out, "all");
        },
        GroupBy::Day => {
            push_date(&mut out, &f.date);
        },
        GroupBy::Week => {
            let w = iso_week_of(&f.date);
            push_int(&mut out, w.0 as i64);
            push_str(&mut out, "-W");
            push_int(&mut out, w.1 as i64);
            assert(out@ =~= int_text(w.0 as int) + "-W"@ + int_text(w.1 as int));
        },
        GroupBy::Month => {
            push_int(&mut out, f.date.year as i64);
            push_str(&mut out, "-");
            push_padded(&mut out, f.date.month as u64, 2);
        },
        GroupBy::Year => {
            push_int(&mut out, f.date.year as i64);
        },
    }
    assert(out@ =~= group_key(group_by, *f));
    out
}

/// The week key of a date is its ISO week-based year (not its calendar
/// year), `-W` and its ISO week number, as chrono's `iso_week` gives them;
/// so two dates of the same ISO week share their week key, also across the
/// turn of a calendar year.
pub proof fn lemma_week_key(f: DateTimeFields, g: DateTimeFields)
    ensures
        group_key(GroupBy::Week, f) == int_text(chrono_iso_week(f.date.year, f.date.month, f.date.day).0 as int)
            + "-W"@ + int_text(chrono_iso_week(f.date.year, f.date.month, f.date.day).1 as int),
        chrono_iso_week(f.date.year, f.date.month, f.date.day) == chrono_iso_week(g.date.year, g.date.month, g.date.day)
            ==> group_key(GroupBy::Week, f) == group_key(GroupBy::Week, g),
{
}

/// `seq_lt` orders any two different texts one way or the other.
pub proof fn lemma_seq_lt_total(a: Seq<char>, b: Seq<char>)
    ensures
        a == b || seq_lt(a, b) || seq_lt(b, a),
    decreases a.len(),
{
    if a.len() > 0 && b.len() > 0 && a[0] == b[0] {
        lemma_seq_lt_total(a.drop_first(), b.drop_first());
        if a.drop_first() == b.drop_first() {
            assert(a =~= seq![a[0]] + a.drop_first());
            assert(b =~= seq![b[0]] + b.drop_first());
        }
    } else if a.len() == 0 && b.len() == 0 {
        assert(a =~= b);
    } else if a.len() > 0 && b.len() > 0 {
        let x = a[0];
        let y = b[0];
        vstd::utf8::char_u32_cast(x, x as u32);
        vstd::utf8::char_u32_cast(y, y as u32);
    }
}

proof fn lemma_rows_with_absent_key(
    views: Seq<(PrintableLog, Id, String, Option<String>, Seq<String>)>,
    keys: Seq<Seq<char>>,
    k: Seq<char>,
)
    requires
        keys.len() == views.len(),
        forall|j: int| 0 <= j < keys.len() ==> keys[j] != k,
    ensures
        rows_with_key(views, keys, k) == Seq::<(PrintableLog, Id, String, Option<String>, Seq<String>)>::empty(),
    decreases views.len(),
{
    if views.len() > 0 {
        lemma_rows_with_absent_key(views.drop_last(), keys.drop_last(), k);
    }
}

/// Groups the rows by key, the groups in ascending order of key and the
/// rows of a group in their order. The groups are held in a vector kept in
/// key order, which is how a map ordered by its keys would give them: the
/// keys are texts, and a map keyed by text comes with no specification of
/// which keys it holds, so the order and the grouping could not be proved
/// of one.
fn group_rows(rows: &[PrintableActivityLog], keys: &Vec<Vec<char>>) -> (r: Vec<(String, Vec<PrintableActivityLog>)>)
    requires
        keys@.len() == rows@.len(),
    ensures
        grouped_by_keys(rows@, views(keys@), r@),
{
    let ghost ks = views(keys@);
    let ghost rviews = row_views(rows@);
    let mut groups: Vec<(Vec<char>, Vec<PrintableActivityLog>)> = Vec::new();
    let mut i: usize = 0;
    while i < rows.len()
        invariant
            i <= rows@.len() == keys@.len() == ks.len() == rviews.len(),
            ks == views(keys@),
            rviews == row_views(rows@),
            forall|a: int, b: int| 0 <= a < b < groups@.len() ==> seq_lt(#[trigger] groups@[a].0@, #[trigger] groups@[b].0@),
            forall|g: int|
                0 <= g < groups@.len() ==> row_views((#[trigger] groups@[g]).1@) == rows_with_key(
                    rviews.take(i as int),
                    ks.take(i as int),
                    groups@[g].0@,
                ),
            forall|j: int| 0 <= j < i ==> exists|g: int| 0 <= g < groups@.len() && (#[trigger] groups@[g]).0@ == #[trigger] ks[j],
            forall|g: int| 0 <= g < groups@.len() ==> ks.take(i as int).contains((#[trigger] groups@[g]).0@),
        decreases rows@.len() - i,
    {
        let key = &keys[i];
        let mut pos: usize = 0;
        while pos < groups.len() && chars_lt(&groups[pos].0, key)
            invariant
                pos <= groups@.len(),
                forall|a: int| 0 <= a < pos ==> seq_lt(#[trigger] groups@[a].0@, key@),
            decreases groups@.len() - pos,
        {
            pos = pos + 1;
        }
        let ghost old_groups = groups@;
        let ghost vi = rviews.take(i + 1);
        let ghost ki = ks.take(i + 1);
        assert(vi.drop_last() =~= rviews.take(i as int));
        assert(ki.drop_last() =~= ks.take(i as int));
        assert(ki.last() == key@);
        assert(vi.last() == row_view(rows@[i as int]));
        let found = pos < groups.len() && chars_eq_vec(&groups[pos].0, key);
        if found {
            let (gk, mut gv) = groups.remove(pos);
            gv.push(copy_row(&rows[i]));
            groups.insert(pos, (gk, gv));
            proof {
                assert(row_views(gv@) =~= row_views(old_groups[pos as int].1@).push(vi.last()));
                assert forall|g: int| 0 <= g < groups@.len() implies row_views((#[trigger] groups@[g]).1@)
                    == rows_with_key(vi, ki, groups@[g].0@) by {
                    if g != pos {
                        assert(groups@[g] == old_groups[g]);
                        assert(old_groups[g].0@ != key@) by {
                            if g < pos {
                                lemma_seq_lt_asymmetric(old_groups[g].0@, old_groups[pos as int].0@);
                            } else {
                                lemma_seq_lt_asymmetric(old_groups[pos as int].0@, old_groups[g].0@);
                            }
                        }
                    }
                }
                assert forall|j: int| 0 <= j < i + 1 implies exists|g: int|
                    0 <= g < groups@.len() && (#[trigger] groups@[g]).0@ == #[trigger] ks[j] by {
                    if j < i {
                        let g = choose|g: int| 0 <= g < old_groups.len() && (#[trigger] old_groups[g]).0@ == ks[j];
                        assert(groups@[g].0@ == old_groups[g].0@);
                    } else {
                        assert(groups@[pos as int].0@ == ks[j]);
                    }
                }
            }
        } else {
            let mut gv: Vec<PrintableActivityLog> = Vec::new();
            gv.push(copy_row(&rows[i]));
            groups.insert(pos, (key.clone(), gv));
            proof {
                assert forall|j: int| 0 <= j < i implies ks[j] != key@ by {
                    let g = choose|g: int| 0 <= g < old_groups.len() && (#[trigger] old_groups[g]).0@ == ks[j];
                    if ks[j] == key@ {
                        if g < pos {
                            lemma_seq_lt_asymmetric(old_groups[g].0@, key@);
                        } else if g == pos {
                        } else {
                            lemma_seq_lt_total(old_groups[pos as int].0@, key@);
                            lemma_seq_lt_transitive(key@, old_groups[pos as int].0@, old_groups[g].0@);
                            lemma_seq_lt_asymmetric(old_groups[pos as int].0@, old_groups[g].0@);
                            lemma_seq_lt_asymmetric(key@, old_groups[g].0@);
                        }
                    }
                }
                lemma_rows_with_absent_key(rviews.take(i as int), ks.take(i as int), key@);
                assert(row_views(gv@) =~= seq![vi.last()]);
                assert(rows_with_key(vi, ki, key@) =~= seq![vi.last()]);
                if pos < old_groups.len() {
                    lemma_seq_lt_total(old_groups[pos as int].0@, key@);
                }
                assert forall|a: int, b: int| 0 <= a < b < groups@.len() implies seq_lt(
                    #[trigger] groups@[a].0@,
                    #[trigger] groups@[b].0@,
                ) by {
                    if a < pos && b == pos {
                    } else if a == pos {
                        assert(groups@[b].0@ == old_groups[b - 1].0@);
                        if b - 1 > pos {
                            lemma_seq_lt_transitive(key@, old_groups[pos as int].0@, old_groups[b - 1].0@);
                        }
                    } else if a < pos && b > pos {
                        assert(groups@[b].0@ == old_groups[b - 1].0@);
                    } else if a > pos {
                        assert(groups@[a].0@ == old_groups[a - 1].0@);
                        assert(groups@[b].0@ == old_groups[b - 1].0@);
                    }
                }
                assert forall|g: int| 0 <= g < groups@.len() implies row_views((#[trigger] groups@[g]).1@)
                    == rows_with_key(vi, ki, groups@[g].0@) by {
                    if g < pos {
                        assert(groups@[g] == old_groups[g]);
                        lemma_seq_lt_asymmetric(old_groups[g].0@, key@);
                    } else if g > pos {
                        assert(groups@[g] == old_groups[g - 1]);
                        if g - 1 > pos {
                            lemma_seq_lt_transitive(key@, old_groups[pos as int].0@, old_groups[g - 1].0@);
                        }
                        lemma_seq_lt_asymmetric(key@, old_groups[g - 1].0@);
                    }
                }
                assert forall|j: int| 0 <= j < i + 1 implies exists|g: int|
                    0 <= g < groups@.len() && (#[trigger] groups@[g]).0@ == #[trigger] ks[j] by {
                    if j < i {
                        let g = choose|g: int| 0 <= g < old_groups.len() && (#[trigger] old_groups[g]).0@ == ks[j];
                        if g < pos {
                            assert(groups@[g].0@ == old_groups[g].0@);
                        } else {
                            assert(groups@[g + 1].0@ == old_groups[g].0@);
                        }
                    } else {
                        assert(groups@[pos as int].0@ == ks[j]);
                    }
                }
            }
        }
        i = i + 1;
    }
    assert(rviews.take(rows@.len() as int) =~= rviews);
    assert(ks.take(rows@.len() as int) =~= ks);
    let mut r: Vec<(String, Vec<PrintableActivityLog>)> = Vec::new();
    let n = groups.len();
    let mut g: usize = 0;
    while g < n
        invariant
            n == groups@.len(),
            g <= n,
            r@.len() == g,
            forall|q: int| 0 <= q < g ==> (#[trigger] r@[q]).0@ == groups@[q].0@ && row_views(r@[q].1@) == row_views(groups@[q].1@),
        decreases n - g,
    {
        let k = string_from_chars(&groups[g].0);
        let rows_g = copy_rows(groups[g].1.as_slice());
        r.push((k, rows_g));
        g = g + 1;
    }
    proof {
        assert forall|a: int, b: int| 0 <= a < b < r@.len() implies seq_lt(#[trigger] r@[a].0@, #[trigger] r@[b].0@) by {
            assert(seq_lt(groups@[a].0@, groups@[b].0@));
        }
        assert forall|q: int| 0 <= q < r@.len() implies row_views((#[trigger] r@[q]).1@) == rows_with_key(
            row_views(rows@),
            ks,
            r@[q].0@,
        ) by {
            assert(row_views(groups@[q].1@) == rows_with_key(rviews, ks, groups@[q].0@));
        }
        assert forall|j: int| 0 <= j < ks.len() implies #[trigger] has_group(r@, ks[j]) by {
            let q = choose|q: int| 0 <= q < groups@.len() && (#[trigger] groups@[q]).0@ == ks[j];
            assert(r@[q].0@ == ks[j]);
        }
        assert(ks.len() == rows@.len());
    }
    r
}

fn chars_eq_vec(a: &Vec<char>, b: &Vec<char>) -> (r: bool)
    ensures
        r == (a@ == b@),
{
    if a.len() != b.len() {
        return false;
    }
    let mut i: usize = 0;
    while i < a.len()
        invariant
            i <= a.len() == b.len(),
            forall|j: int| 0 <= j < i ==> a@[j] == b@[j],
        decreases a.len() - i,
    {
        if a[i] != b[i] {
            return false;
        }
        i = i + 1;
    }
    assert(a@ =~= b@);
    true
}

/// Whether a row is listed: when tags are asked for, its activity has them
/// all.
pub open spec fn row_shown(row: PrintableActivityLog, filter_by_tags: Option<Seq<String>>) -> bool {
    match filter_by_tags {
        Some(w) => has_all_tags(row.activity.tags@, w),
        None => true,
    }
}

/// The views of the listed rows, in order.
pub open spec fn shown_rows(
    rows: Seq<PrintableActivityLog>,
    filter_by_tags: Option<Seq<String>>,
) -> Seq<(PrintableLog, Id, String, Option<String>, Seq<String>)>
    decreases rows.len(),
{
    if rows.len() == 0 {
        Seq::empty()
    } else if row_shown(rows.last(), filter_by_tags) {
        shown_rows(rows.drop_last(), filter_by_tags).push(row_view(rows.last()))
    } else {
        shown_rows(rows.drop_last(), filter_by_tags)
    }
}

/// The rows to list: when tags are asked for, those whose activity has all
/// of them, in their order.
pub fn filter_rows_by_tags(rows: &[PrintableActivityLog], filter_by_tags: &Option<Vec<String>>) -> (r: Vec<PrintableActivityLog>)
    ensures
        row_views(r@) == shown_rows(rows@, wanted_view(*filter_by_tags)),
        rows_wf(rows@) ==> rows_wf(r@),
{
    let ghost wanted = wanted_view(*filter_by_tags);
    let mut r: Vec<PrintableActivityLog> = Vec::new();
    let mut i: usize = 0;
    while i < rows.len()
        invariant
            i <= rows@.len(),
            wanted == wanted_view(*filter_by_tags),
            row_views(r@) == shown_rows(rows@.take(i as int), wanted),
            rows_wf(rows@) ==> rows_wf(r@),
        decreases rows@.len() - i,
    {
        let row = &rows[i];
        let keep = match filter_by_tags {
            Some(w) => has_all(&row.activity.tags, w),
            None => true,
        };
        let ghost old_r = r@;
        assert(rows@.take(i + 1).drop_last() =~= rows@.take(i as int));
        assert(rows@.take(i + 1).last() == *row);
        if keep {
            let c = copy_row(row);
            r.push(c);
            assert(row_views(r@) =~= row_views(old_r).push(row_view(*row)));
            proof {
                if rows_wf(rows@) {
                    assert(rows@[i as int].log.as_log().wf());
                    assert forall|k: int| 0 <= k < r@.len() implies (#[trigger] r@[k]).log.as_log().wf() by {
                        if k < old_r.len() {
                            assert(r@[k] == old_r[k]);
                        }
                    }
                }
            }
        }
        i = i + 1;
    }
    assert(rows@.take(rows@.len() as int) =~= rows@);
    r
}

/// The rows' logs lie in the years 0 to 9999.
pub open spec fn rows_wf(rows: Seq<PrintableActivityLog>) -> bool {
    forall|i: int| 0 <= i < rows.len() ==> (#[trigger] rows[i]).log.as_log().wf()
}

/// The groups of the rows under a grouping other than none, open logs
/// taken to end at `now`: keys computed in the local time zone.
fn group_by_key_at(activity_logs: &[PrintableActivityLog], group_by: GroupBy, now: Instant) -> (r: Vec<(String, Vec<PrintableActivityLog>)>)
    requires
        rows_wf(activity_logs@),
        now.wf(),
        ts_inner(now.secs as int),
    ensures
        exists|keys: Seq<Seq<char>>|
            keys_of_rows(group_by, activity_logs@, now.secs as int, keys) && #[trigger] grouped_by_keys(activity_logs@, keys, r@),
{
    let mut keys: Vec<Vec<char>> = Vec::new();
    let mut i: usize = 0;
    while i < activity_logs.len()
        invariant
            i <= activity_logs@.len(),
            rows_wf(activity_logs@),
            now.wf(),
            ts_inner(now.secs as int),
            keys@.len() == i,
            keys_of_rows(group_by, activity_logs@.take(i as int), now.secs as int, views(keys@)),
        decreases activity_logs@.len() - i,
    {
        let row = &activity_logs[i];
        assert(row.log.as_log().wf());
        let latest = match row.log.ends_at {
            Some(e) => e,
            None => now.secs,
        };
        let f = local_date_time_of(latest).unwrap();
        let k = group_key_string(group_by, &f);
        let ghost old_keys = views(keys@);
        keys.push(k);
        proof {
            let nk = views(keys@);
            assert(nk =~= old_keys.push(k@));
            let rows = activity_logs@.take(i + 1);
            assert(row_end(rows[i as int], now.secs as int) == latest);
            assert forall|j: int| 0 <= j < nk.len() implies #[trigger] key_of_row(
                group_by,
                rows[j],
                now.secs as int,
                nk[j],
            ) by {
                if j < old_keys.len() {
                    assert(nk[j] == old_keys[j]);
                    assert(rows[j] == activity_logs@.take(i as int)[j]);
                    assert(key_of_row(group_by, activity_logs@.take(i as int)[j], now.secs as int, old_keys[j]));
                } else {
                    assert(ts_inner(latest as int));
                    assert(local_fields_of(row_end(rows[j], now.secs as int), f));
                    assert(nk[j] == group_key(group_by, f));
                }
            }
        }
        i = i + 1;
    }
    assert(activity_logs@.take(activity_logs@.len() as int) =~= activity_logs@);
    group_rows(activity_logs, &keys)
}

/// All rows in a single group keyed `all`.
fn group_all(activity_logs: &[PrintableActivityLog]) -> (r: Vec<(String, Vec<PrintableActivityLog>)>)
    ensures
        r@.len() == 1,
        r@[0].0@ == "all"@,
        row_views(r@[0].1@) == row_views(activity_logs@),
{
    let mut r: Vec<(String, Vec<PrintableActivityLog>)> = Vec::new();
    r.push((String::from_str("all"), copy_rows(activity_logs)));
    r
}

/// The groups of a log listing, open logs taken to end at `now`: with no
/// grouping, one group `all` of every row; else groups by local day, ISO
/// week, month or year of each log's end.
pub fn group_by_at(activity_logs: &[PrintableActivityLog], group_by: GroupBy, now: Instant) -> (r: Vec<(String, Vec<PrintableActivityLog>)>)
    requires
        rows_wf(activity_logs@),
        now.wf(),
        ts_inner(now.secs as int),
    ensures
        group_by == GroupBy::Ungrouped ==> r@.len() == 1 && r@[0].0@ == "all"@ && row_views(r@[0].1@) == row_views(activity_logs@),
        group_by != GroupBy::Ungrouped ==> exists|keys: Seq<Seq<char>>|
            keys_of_rows(group_by, activity_logs@, now.secs as int, keys) && #[trigger] grouped_by_keys(
                activity_logs@,
                keys,
                r@,
            ),
{
    match group_by {
        GroupBy::Ungrouped => group_all(activity_logs),
        _ => group_by_key_at(activity_logs, group_by, now),
    }
}

/// The instant now, brought a day inside chrono's range (which the clock
/// only leaves in its last day); none when the system clock gives no usable
/// instant.
fn now_inside() -> (r: Option<Instant>)
    ensures
        r matches Some(i) ==> i.wf() && ts_inner(i.secs as int) && i.secs >= 0,
{
    let now = match utc_now() {
        Some(n) => n,
        None => return None,
    };
    if now.secs > CHRONO_MAX_TIMESTAMP - 86400 {
        Some(Instant { secs: CHRONO_MAX_TIMESTAMP - 86400, nanos: 0 })
    } else {
        Some(now)
    }
}

/// Whether every row's log has ended.
pub open spec fn all_closed(rows: Seq<PrintableActivityLog>) -> bool {
    forall|i: int| 0 <= i < rows.len() ==> (#[trigger] rows[i]).log.ends_at is Some
}

fn rows_all_closed(rows: &[PrintableActivityLog]) -> (r: bool)
    ensures
        r == all_closed(rows@),
{
    let mut i: usize = 0;
    while i < rows.len()
        invariant
            i <= rows@.len(),
            forall|j: int| 0 <= j < i ==> (#[trigger] rows@[j]).log.ends_at is Some,
        decreases rows@.len() - i,
    {
        if rows[i].log.ends_at.is_none() {
            return false;
        }
        i = i + 1;
    }
    true
}

/// With every log ended, the keys do not depend on the instant taken as now.
pub proof fn lemma_closed_keys_ignore_now(group_by: GroupBy, rows: Seq<PrintableActivityLog>, a: int, b: int, keys: Seq<Seq<char>>)
    requires
        all_closed(rows),
        keys_of_rows(group_by, rows, a, keys),
    ensures
        keys_of_rows(group_by, rows, b, keys),
{
    assert forall|i: int| 0 <= i < keys.len() implies #[trigger] key_of_row(group_by, rows[i], b, keys[i]) by {
        assert(key_of_row(group_by, rows[i], a, keys[i]));
        assert(row_end(rows[i], a) == row_end(rows[i], b));
    }
}

/// The groups of a log listing, open logs taken to end now: with no
/// grouping, one group `all` of every row; else groups by the local day,
/// ISO week, month or year of each log's end. The clock is read only when a
/// log is open; none when it then gives no usable instant.
pub fn group_by(activity_logs: &[PrintableActivityLog], grouping: GroupBy) -> (r: Option<Vec<(String, Vec<PrintableActivityLog>)>>)
    requires
        rows_wf(activity_logs@),
    ensures
        grouping == GroupBy::Ungrouped ==> (r matches Some(g) && g@.len() == 1 && g@[0].0@ == "all"@ && row_views(
            g@[0].1@,
        ) == row_views(activity_logs@)),
        grouping != GroupBy::Ungrouped && all_closed(activity_logs@) ==> r is Some,
        grouping != GroupBy::Ungrouped && activity_logs@.len() == 0 ==> (r matches Some(g) && g@.len() == 0),
        grouping != GroupBy::Ungrouped ==> (r matches Some(g) ==> exists|now: Instant, keys: Seq<Seq<char>>|
            now.wf() && #[trigger] keys_of_rows(grouping, activity_logs@, now.secs as int, keys) && grouped_by_keys(
                activity_logs@,
                keys,
                g@,
            )),
{
    match grouping {
        GroupBy::Ungrouped => Some(group_all(activity_logs)),
        _ => {
            if rows_all_closed(activity_logs) {
                let epoch = Instant { secs: 0, nanos: 0 };
                let g = group_by_at(activity_logs, grouping, epoch);
                proof {
                    if activity_logs@.len() == 0 {
                        let keys = choose|keys: Seq<Seq<char>>|
                            keys_of_rows(grouping, activity_logs@, 0, keys) && #[trigger] grouped_by_keys(activity_logs@, keys, g@);
                        if g@.len() > 0 {
                            assert(keys.contains(g@[0].0@));
                        }
                    }
                }
                Some(g)
            } else {
                match now_inside() {
                    Some(now) => Some(group_by_at(activity_logs, grouping, now)),
                    None => None,
                }
            }
        },
    }
}

/// The logs grouped by the local day they end on (`YYYY-MM-DD`). None
/// when a log is open and the system clock gives no usable instant.
pub fn group_by_day(activity_logs: &[PrintableActivityLog]) -> (r: Option<Vec<(String, Vec<PrintableActivityLog>)>>)
    requires
        rows_wf(activity_logs@),
    ensures
        all_closed(activity_logs@) ==> r is Some,
        activity_logs@.len() == 0 ==> (r matches Some(g) && g@.len() == 0),
        r matches Some(g) ==> exists|now: Instant, keys: Seq<Seq<char>>|
            now.wf() && #[trigger] keys_of_rows(GroupBy::Day, activity_logs@, now.secs as int, keys) && grouped_by_keys(
                activity_logs@,
                keys,
                g@,
            ),
{
    group_by(activity_logs, GroupBy::Day)
}

/// The logs grouped by the ISO week they end in (`YYYY-Wn`). None
/// when a log is open and the system clock gives no usable instant.
pub fn group_by_week(activity_logs: &[PrintableActivityLog]) -> (r: Option<Vec<(String, Vec<PrintableActivityLog>)>>)
    requires
        rows_wf(activity_logs@),
    ensures
        all_closed(activity_logs@) ==> r is Some,
        activity_logs@.len() == 0 ==> (r matches Some(g) && g@.len() == 0),
        r matches Some(g) ==> exists|now: Instant, keys: Seq<Seq<char>>|
            now.wf() && #[trigger] keys_of_rows(GroupBy::Week, activity_logs@, now.secs as int, keys) && grouped_by_keys(
                activity_logs@,
                keys,
                g@,
            ),
{
    group_by(activity_logs, GroupBy::Week)
}

/// The logs grouped by the local month they end in (`YYYY-MM`). None
/// when a log is open and the system clock gives no usable instant.
pub fn group_by_month(activity_logs: &[PrintableActivityLog]) -> (r: Option<Vec<(String, Vec<PrintableActivityLog>)>>)
    requires
        rows_wf(activity_logs@),
    ensures
        all_closed(activity_logs@) ==> r is Some,
        activity_logs@.len() == 0 ==> (r matches Some(g) && g@.len() == 0),
        r matches Some(g) ==> exists|now: Instant, keys: Seq<Seq<char>>|
            now.wf() && #[trigger] keys_of_rows(GroupBy::Month, activity_logs@, now.secs as int, keys) && grouped_by_keys(
                activity_logs@,
                keys,
                g@,
            ),
{
    group_by(activity_logs, GroupBy::Month)
}

/// The logs grouped by the local year they end in. None
/// when a log is open and the system clock gives no usable instant.
pub fn group_by_year(activity_logs: &[PrintableActivityLog]) -> (r: Option<Vec<(String, Vec<PrintableActivityLog>)>>)
    requires
        rows_wf(activity_logs@),
    ensures
        all_closed(activity_logs@) ==> r is Some,
        activity_logs@.len() == 0 ==> (r matches Some(g) && g@.len() == 0),
        r matches Some(g) ==> exists|now: Instant, keys: Seq<Seq<char>>|
            now.wf() && #[trigger] keys_of_rows(GroupBy::Year, activity_logs@, now.secs as int, keys) && grouped_by_keys(
                activity_logs@,
                keys,
                g@,
            ),
{
    group_by(activity_logs, GroupBy::Year)
}

} // verus!

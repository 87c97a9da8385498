use vstd::prelude::*;

use crate::date::{duration_parts, pretty_format_duration};
use crate::models::{texts, clone_opt_string, clone_strings, PrintableActivity, PrintableTag};
use crate::paint::{green, green_code, painted, underline, underline_code};
use crate::sorting::{is_permutation, key_le, sort_indices_by_key, sorted_by_keys, stable_by_keys};
use crate::text::{join, push_str, string_from_chars};

verus! {

/// Whether the tags hold every wanted tag.
pub open spec fn has_all_tags(tags: Seq<String>, wanted: Seq<String>) -> bool {
    forall|i: int| 0 <= i < wanted.len() ==> #[trigger] texts(tags).contains(wanted[i]@)
}

/// Whether a summary is shown: time was spent on it and, when tags are
/// asked for, it has them all.
pub open spec fn summary_shown(a: PrintableActivity, filter_by_tags: Option<Seq<String>>) -> bool {
    a.duration > 0 && match filter_by_tags {
        Some(w) => has_all_tags(a.tags@, w),
        None => true,
    }
}

/// What a summary shows, tags as a sequence.
pub open spec fn summary_view(a: PrintableActivity) -> (i64, String, Option<String>, i64, bool, Seq<String>) {
    (a.id, a.name, a.description, a.duration, a.ongoing, a.tags@)
}

/// The views of the shown summaries, in order.
pub open spec fn shown_summaries(
    acts: Seq<PrintableActivity>,
    filter_by_tags: Option<Seq<String>>,
) -> Seq<(i64, String, Option<String>, i64, bool, Seq<String>)>
    decreases acts.len(),
{
    if acts.len() == 0 {
        Seq::empty()
    } else if summary_shown(acts.last(), filter_by_tags) {
        shown_summaries(acts.drop_last(), filter_by_tags).push(summary_view(acts.last()))
    } else {
        shown_summaries(acts.drop_last(), filter_by_tags)
    }
}

/// The views of summaries.
pub open spec fn summary_views(acts: Seq<PrintableActivity>) -> Seq<(i64, String, Option<String>, i64, bool, Seq<String>)> {
    acts.map_values(|a: PrintableActivity| summary_view(a))
}

/// The optional wanted tags as a sequence.
pub open spec fn wanted_view(filter_by_tags: Option<Vec<String>>) -> Option<Seq<String>> {
    match filter_by_tags {
        Some(v) => Some(v@),
        None => None,
    }
}

fn contains_string(v: &Vec<String>, s: &String) -> (r: bool)
    ensures
        r == texts(v@).contains(s@),
{
    let mut i: usize = 0;
    while i < v.len()
        invariant
            i <= v.len(),
            forall|j: int| 0 <= j < i ==> v@[j]@ != s@,
        decreases v.len() - i,
    {
        if v[i] == *s {
            assert(texts(v@)[i as int] == s@);
            return true;
        }
        i = i + 1;
    }
    assert forall|j: int| 0 <= j < texts(v@).len() implies texts(v@)[j] != s@ by {
        assert(texts(v@)[j] == v@[j]@);
    }
    false
}

pub(crate) fn has_all(tags: &Vec<String>, wanted: &Vec<String>) -> (r: bool)
    ensures
        r == has_all_tags(tags@, wanted@),
{
    let mut i: usize = 0;
    while i < wanted.len()
        invariant
            i <= wanted.len(),
            forall|j: int| 0 <= j < i ==> #[trigger] texts(tags@).contains(wanted@[j]@),
        decreases wanted.len() - i,
    {
        if !contains_string(tags, &wanted[i]) {
            return false;
        }
        i = i + 1;
    }
    true
}

fn copy_summary(a: &PrintableActivity) -> (r: PrintableActivity)
    ensures
        summary_view(r) == summary_view(*a),
{
    PrintableActivity {
        id: a.id,
        name: a.name.clone(),
        description: clone_opt_string(&a.description),
        duration: a.duration,
        ongoing: a.ongoing,
        tags: clone_strings(&a.tags),
    }
}

/// The summaries to show: those with time spent and, when tags are asked
/// for, with all of them, in their order.
pub fn filter_summaries(acts: &Vec<PrintableActivity>, filter_by_tags: &Option<Vec<String>>) -> (r: Vec<PrintableActivity>)
    ensures
        summary_views(r@) == shown_summaries(acts@, wanted_view(*filter_by_tags)),
{
    let ghost wanted = wanted_view(*filter_by_tags);
    let mut r: Vec<PrintableActivity> = Vec::new();
    let mut i: usize = 0;
    while i < acts.len()
        invariant
            i <= acts@.len(),
            wanted == wanted_view(*filter_by_tags),
            summary_views(r@) == shown_summaries(acts@.take(i as int), wanted),
        decreases acts@.len() - i,
    {
        let a = &acts[i];
        let keep = a.duration > 0 && match filter_by_tags {
            Some(w) => has_all(&a.tags, w),
            None => true,
        };
        let ghost old_r = r@;
        assert(acts@.take(i + 1).drop_last() =~= acts@.take(i as int));
        assert(acts@.take(i + 1).last() == *a);
        if keep {
            r.push(copy_summary(a));
            assert(summary_views(r@) =~= summary_views(old_r).push(summary_view(*a)));
        }
        i = i + 1;
    }
    assert(acts@.take(acts@.len() as int) =~= acts@);
    r
}

/// The summed time of the summaries.
pub open spec fn summed_durations(acts: Seq<PrintableActivity>) -> int
    decreases acts.len(),
{
    if acts.len() == 0 {
        0
    } else {
        summed_durations(acts.drop_last()) + acts.last().duration
    }
}

/// Every partial sum of the summaries' times fits an `i64`.
pub open spec fn sums_fit(acts: Seq<PrintableActivity>) -> bool {
    forall|k: int| 0 <= k <= acts.len() ==> i64::MIN <= #[trigger] summed_durations(acts.take(k)) <= i64::MAX
}

/// The summed time of the summaries, in seconds.
pub fn total_seconds(acts: &Vec<PrintableActivity>) -> (r: i64)
    requires
        sums_fit(acts@),
    ensures
        r == summed_durations(acts@),
{
    let mut total: i64 = 0;
    let mut i: usize = 0;
    assert(acts@.take(0) =~= Seq::<PrintableActivity>::empty());
    while i < acts.len()
        invariant
            i <= acts@.len(),
            sums_fit(acts@),
            total == summed_durations(acts@.take(i as int)),
        decreases acts@.len() - i,
    {
        assert(acts@.take(i + 1).drop_last() =~= acts@.take(i as int));
        assert(i64::MIN <= summed_durations(acts@.take(i + 1)) <= i64::MAX);
        total = total + acts[i].duration;
        i = i + 1;
    }
    assert(acts@.take(acts@.len() as int) =~= acts@);
    total
}

/// The line under a report: `Total:` underlined, then the summed time in
/// the short form, in green.
pub fn total_line(total_sec: i64) -> (r: String)
    ensures
        exists|label: Seq<char>, time: Seq<char>|
            painted(underline_code(), "Total:"@, label) && painted(
                green_code(),
                join(duration_parts(total_sec as int, false), " "@),
                time,
            ) && r@ == label + " "@ + time,
{
    let label = underline("Total:");
    let d = pretty_format_duration(total_sec, false);
    let time = green(d.as_str());
    let mut out: Vec<char> = Vec::new();
    push_str(&mut out, label.as_str());
    push_str(&mut out, " ");
    push_str(&mut out, time.as_str());
    string_from_chars(&out)
}

/// The ids of the tags.
pub open spec fn tag_ids(tags: Seq<PrintableTag>) -> Seq<i64> {
    tags.map_values(|t: PrintableTag| t.id)
}

fn copy_tag(t: &PrintableTag) -> (r: PrintableTag)
    ensures
        r.id == t.id,
        r.name == t.name,
{
    PrintableTag { id: t.id, name: t.name.clone() }
}

/// Tags by id, highest first (a stable sort).
pub fn sort_tags_by_id_desc(tags: &Vec<PrintableTag>) -> (r: Vec<PrintableTag>)
    ensures
        exists|p: Seq<usize>|
            is_permutation(p, tags@.len()) && #[trigger] stable_by_keys(p, tag_ids(tags@))
                && r@.len() == tags@.len() && forall|j: int|
                0 <= j < r@.len() ==> (#[trigger] r@[j]).id == tags@[p[j] as int].id && r@[j].name == tags@[p[j] as int].name,
        forall|i: int, j: int| 0 <= i < j < r@.len() ==> (#[trigger] r@[i]).id >= (#[trigger] r@[j]).id,
{
    let mut keys: Vec<i64> = Vec::new();
    let mut k: usize = 0;
    while k < tags.len()
        invariant
            k <= tags@.len(),
            keys@.len() == k,
            forall|q: int| 0 <= q < k ==> keys@[q] == (#[trigger] tags@[q]).id,
        decreases tags@.len() - k,
    {
        keys.push(tags[k].id);
        k = k + 1;
    }
    assert(keys@ =~= tag_ids(tags@));
    let perm = sort_indices_by_key(&keys, true);
    let mut r: Vec<PrintableTag> = Vec::new();
    let n = perm.len();
    let mut j: usize = 0;
    while j < n
        invariant
            j <= n == perm@.len() == keys@.len() == tags@.len(),
            is_permutation(perm@, keys@.len() as nat),
            forall|q: int| 0 <= q < tags@.len() ==> keys@[q] == (#[trigger] tags@[q]).id,
            r@.len() == j,
            forall|q: int|
                0 <= q < j ==> (#[trigger] r@[q]).id == tags@[perm@[q] as int].id && r@[q].name
                    == tags@[perm@[q] as int].name,
        decreases n - j,
    {
        r.push(copy_tag(&tags[perm[j]]));
        j = j + 1;
    }
    assert(stable_by_keys(perm@, tag_ids(tags@)));
    assert forall|a: int, b: int| 0 <= a < b < r@.len() implies (#[trigger] r@[a]).id >= (#[trigger] r@[b]).id by {
        assert(key_le(keys@[perm@[a] as int], keys@[perm@[b] as int], true));
    }
    r
}

} // verus!

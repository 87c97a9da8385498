use vstd::prelude::*;

use std::collections::HashMap;

use crate::date::{
    date_time_text, lemma_local_date_of_fields, local_date_of, local_date_time_of, local_fields_of, local_today, utc_now, Date, DateTimeFields, DateTimeRenderMode, Instant,
};
use crate::filter::{matches_date_at, matches_date_range_at, matches_filter, preset_contains};
use crate::text::{int_text, push_int, push_str, string_from_chars};
use crate::models::{
    description_or_empty, description_text, tags_str, tags_text, clone_opt_string, clone_strings, all_logs_wf, any_open, durations_fit, total_duration, Activity, Id, Log, PrintableActivity,
    PrintableActivityLog, SimpleActivity,
};
use crate::period::{PeriodInput, PresetPeriod};
use crate::sorting::{is_permutation, key_le, sort_indices_by_key, sorted_by_keys, stable_by_keys};
use vstd::std_specs::hash::spec_hash_map_iter;
use vstd::std_specs::iter::IteratorSpec;

verus! {

broadcast use vstd::std_specs::hash::group_hash_axioms;

/// The logs kept by a filter: those whose flag is set, in order.
pub open spec fn filter_seq(src: Seq<Log>, keep: Seq<bool>) -> Seq<Log>
    decreases src.len(),
{
    if src.len() == 0 || keep.len() != src.len() {
        Seq::<Log>::empty()
    } else if keep.last() {
        filter_seq(src.drop_last(), keep.drop_last()).push(src.last())
    } else {
        filter_seq(src.drop_last(), keep.drop_last())
    }
}

/// Log `log` was judged against the period with `local`, a local date of
/// its start, and `k` is the verdict.
pub open spec fn decided(log: Log, period: PeriodInput, today: Date, now: i64, local: Date, k: bool) -> bool {
    local.wf() && local_date_of(log.starts_at as int, local) && k == matches_filter(log, period, today, now, local)
}

/// `keep` and `locals` are the verdicts and local dates behind `kept`.
pub open spec fn kept_by(
    src: Seq<Log>,
    kept: Seq<Log>,
    period: PeriodInput,
    today: Date,
    now: i64,
    keep: Seq<bool>,
    locals: Seq<Date>,
) -> bool {
    &&& keep.len() == src.len()
    &&& locals.len() == src.len()
    &&& forall|j: int|
        0 <= j < src.len() ==> #[trigger] decided(src[j], period, today, now, locals[j], keep[j])
    &&& kept == filter_seq(src, keep)
}

/// `kept` holds the logs of `src` that match the period, each log's start
/// taken as some local date.
pub open spec fn filtered_by(src: Seq<Log>, kept: Seq<Log>, period: PeriodInput, today: Date, now: i64) -> bool {
    exists|keep: Seq<bool>, locals: Seq<Date>| #[trigger] kept_by(src, kept, period, today, now, keep, locals)
}

proof fn lemma_filter_seq_all(src: Seq<Log>, keep: Seq<bool>)
    requires
        keep.len() == src.len(),
        forall|j: int| 0 <= j < keep.len() ==> #[trigger] keep[j],
    ensures
        filter_seq(src, keep) == src,
    decreases src.len(),
{
    if src.len() > 0 {
        lemma_filter_seq_all(src.drop_last(), keep.drop_last());
        assert(keep.last() == keep[keep.len() - 1]);
        assert(src.drop_last().push(src.last()) =~= src);
    }
}

/// Filtering by all time keeps every log, in order.
pub proof fn lemma_all_time_keeps_every_log(src: Seq<Log>, kept: Seq<Log>, today: Date, now: i64)
    requires
        filtered_by(src, kept, PeriodInput::Preset(PresetPeriod::AllTime), today, now),
    ensures
        kept == src,
{
    let (keep, locals) = choose|keep: Seq<bool>, locals: Seq<Date>|
        #[trigger] kept_by(src, kept, PeriodInput::Preset(PresetPeriod::AllTime), today, now, keep, locals);
    assert forall|j: int| 0 <= j < keep.len() implies #[trigger] keep[j] by {
        assert(decided(src[j], PeriodInput::Preset(PresetPeriod::AllTime), today, now, locals[j], keep[j]));
    }
    lemma_filter_seq_all(src, keep);
}

/// The activity part of a stored activity.
pub open spec fn simple_of(s: SimpleActivity, a: Activity) -> bool {
    s.id == a.id && s.name == a.name && s.description == a.description && s.tags@ == a.tags@
}

/// `k` is the last index below `n` with the id of `acts[k]`.
pub open spec fn last_before(acts: Seq<Activity>, n: int, k: int) -> bool {
    0 <= k < n && forall|j: int| k < j < n ==> (#[trigger] acts[j]).id != acts[k].id
}

/// Some activity below index `n` has the id.
pub open spec fn has_id_before(acts: Seq<Activity>, n: int, id: Id) -> bool {
    exists|k: int| 0 <= k < n && (#[trigger] acts[k]).id == id
}

/// Activities and their logs, keyed by activity id.
pub struct BoatData {
    pub activities: HashMap<Id, SimpleActivity>,
    pub logs: HashMap<Id, Vec<Log>>,
}

impl BoatData {
    /// The logs stored under an id, none when there is no entry.
    pub open spec fn logs_of(&self, id: Id) -> Seq<Log> {
        if self.logs@.contains_key(id) {
            self.logs@[id]@
        } else {
            Seq::<Log>::empty()
        }
    }

    /// Every stored log is well formed.
    pub open spec fn logs_wf(&self) -> bool {
        forall|id: Id| #[trigger] self.logs@.contains_key(id) ==> all_logs_wf(self.logs@[id]@)
    }

    /// Every stored log belongs to a known activity.
    pub open spec fn logs_linked(&self) -> bool {
        forall|id: Id, j: int|
            #![trigger self.logs@[id]@[j]]
            self.logs@.contains_key(id) && 0 <= j < self.logs@[id]@.len()
                ==> self.activities@.contains_key(self.logs@[id]@[j].activity_id)
    }

    /// The data was built from the activities and the period as
    /// `built_from` says, on some valid day at some valid instant.
    pub open spec fn built_some_day(&self, acts: Seq<Activity>, period: PeriodInput) -> bool {
        exists|today: Date, now: Instant| today.wf() && now.wf() && #[trigger] self.built_from(acts, period, today, now.secs)
    }

    /// The data built from stored activities: each id keeps the activity
    /// that came last with it, and that activity's logs that the filter
    /// kept, with today's date `today` and the instant `now`.

    pub open spec fn built_from(
        &self,
        acts: Seq<Activity>,
        period: PeriodInput,
        today: Date,
        now: i64,
    ) -> bool {
        &&& forall|id: Id| #[trigger] self.activities@.contains_key(id) <==> has_id_before(acts, acts.len() as int, id)
        &&& forall|id: Id| #[trigger] self.logs@.contains_key(id) <==> has_id_before(acts, acts.len() as int, id)
        &&& forall|k: int|
            #[trigger] last_before(acts, acts.len() as int, k) ==> simple_of(self.activities@[acts[k].id], acts[k])
                && filtered_by(acts[k].logs@, self.logs@[acts[k].id]@, period, today, now)
    }
}

/// Every log of every activity is well formed.
/// The tags of every activity form a set.
pub open spec fn activities_tags_wf(acts: Seq<Activity>) -> bool {
    forall|k: int| 0 <= k < acts.len() ==> (#[trigger] acts[k]).tags_wf()
}

pub open spec fn activities_logs_wf(acts: Seq<Activity>) -> bool {
    forall|k: int| 0 <= k < acts.len() ==> all_logs_wf((#[trigger] acts[k]).logs@)
}

/// Keeps the logs that match the period, with today's date and `now` as
/// read once; each log's local start date is read from the time zone.
fn filter_logs(logs: &Vec<Log>, period: &PeriodInput, today: &Date, now: i64) -> (r: Vec<Log>)
    requires
        all_logs_wf(logs@),
        today.wf(),
        crate::date::ts_in_range(now as int),
    ensures
        filtered_by(logs@, r@, *period, *today, now),
        all_logs_wf(r@),
{
    let mut r: Vec<Log> = Vec::new();
    let mut keep: Vec<bool> = Vec::new();
    let mut locals: Vec<Date> = Vec::new();
    let mut i: usize = 0;
    while i < logs.len()
        invariant
            i <= logs.len(),
            all_logs_wf(logs@),
            today.wf(),
            crate::date::ts_in_range(now as int),
            keep@.len() == i,
            locals@.len() == i,
            forall|j: int|
                0 <= j < i ==> #[trigger] decided(logs@[j], *period, *today, now, locals@[j], keep@[j]),
            r@ == filter_seq(logs@.take(i as int), keep@),
            all_logs_wf(r@),
        decreases logs.len() - i,
    {
        let log = logs[i];
        assert(logs@[i as int].wf());
        let f = local_date_time_of(log.starts_at).unwrap();
        proof {
            lemma_local_date_of_fields(log.starts_at as int, f);
        }
        let k = match period {
            PeriodInput::Preset(p) => preset_contains(p, &f.date, today),
            PeriodInput::Single(d) => matches_date_at(&log, d, now),
            PeriodInput::Range { start, end, inclusive: _ } => matches_date_range_at(&log, start, end, now),
        };
        assert(k == matches_filter(logs@[i as int], *period, *today, now, f.date));
        let ghost old_keep = keep@;
        let ghost old_locals = locals@;
        keep.push(k);
        locals.push(f.date);
        if k {
            r.push(log);
        }
        proof {
            let src = logs@.take(i + 1);
            assert(src.drop_last() =~= logs@.take(i as int));
            assert(src.last() == log);
            assert(keep@.drop_last() =~= old_keep);
            assert(r@ == filter_seq(src, keep@));
            assert forall|j: int| 0 <= j < i + 1 implies #[trigger] decided(
                logs@[j],
                *period,
                *today,
                now,
                locals@[j],
                keep@[j],
            ) by {
                if j < i {
                    assert(keep@[j] == old_keep[j]);
                    assert(locals@[j] == old_locals[j]);
                }
            }
        }
        i = i + 1;
    }
    assert(logs@.take(logs.len() as int) =~= logs@);
    assert(kept_by(logs@, r@, *period, *today, now, keep@, locals@));
    r
}

impl BoatData {
    /// Keys the activities by id, a later activity replacing an earlier
    /// one with its id, and keeps of each activity the logs that match the
    /// period. Today's date and the current instant are read once; none
    /// when the system clock gives no usable instant.
    pub fn create_filtered_data(db_activities: Vec<Activity>, period_input: PeriodInput) -> (r: Option<Self>)
        requires
            activities_logs_wf(db_activities@),
        ensures
            r matches Some(d) ==> d.built_some_day(db_activities@, period_input),
            r matches Some(d) ==> d.logs_wf() && d.keys_match(),
            r matches Some(d) ==> (activities_tags_wf(db_activities@) ==> d.tags_wf()),
    {
        let today = match local_today() {
            Some(d) => d,
            None => return None,
        };
        let now = match utc_now() {
            Some(n) => n,
            None => return None,
        };
        let ghost acts = db_activities@;
        let d = Self::create_filtered_data_at(db_activities, period_input, today, now);
        assert(today.wf() && now.wf() && d.built_from(acts, period_input, today, now.secs));
        assert(d.built_some_day(acts, period_input));
        Some(d)
    }

    /// Keys the activities by id, a later activity replacing an earlier
    /// one with its id, and keeps of each activity the logs that match the
    /// period, taken on day `today` at instant `now`.
    pub fn create_filtered_data_at(db_activities: Vec<Activity>, period_input: PeriodInput, today: Date, now: Instant) -> (r: Self)
        requires
            activities_logs_wf(db_activities@),
            today.wf(),
            now.wf(),
        ensures
            r.built_from(db_activities@, period_input, today, now.secs),
            r.logs_wf(),
            r.keys_match(),
            activities_tags_wf(db_activities@) ==> r.tags_wf(),
    {
        let mut activities: HashMap<Id, SimpleActivity> = HashMap::new();
        let mut logs: HashMap<Id, Vec<Log>> = HashMap::new();
        let n = db_activities.len();
        let mut i: usize = 0;
        while i < n
            invariant
                i <= n == db_activities.len(),
                activities_logs_wf(db_activities@),
                today.wf(),
                now.wf(),
                forall|id: Id| #[trigger] activities@.contains_key(id) <==> has_id_before(db_activities@, i as int, id),
                forall|id: Id| #[trigger] logs@.contains_key(id) <==> has_id_before(db_activities@, i as int, id),
                forall|k: int|
                    #[trigger] last_before(db_activities@, i as int, k) ==> simple_of(activities@[db_activities@[k].id], db_activities@[k])
                        && filtered_by(db_activities@[k].logs@, logs@[db_activities@[k].id]@, period_input, today, now.secs),
                forall|id: Id| #[trigger] logs@.contains_key(id) ==> all_logs_wf(logs@[id]@),
                forall|id: Id| #[trigger] activities@.contains_key(id) ==> activities@[id].id == id,
                activities_tags_wf(db_activities@) ==> forall|id: Id| #[trigger] activities@.contains_key(id) ==> activities@[id].wf(),
            decreases n - i,
        {
            let act = &db_activities[i];
            assert(all_logs_wf(db_activities@[i as int].logs@));
            let simple = SimpleActivity::from_db_activity(act);
            let kept = filter_logs(&act.logs, &period_input, &today, now.secs);
            let ghost old_acts = activities@;
            let ghost old_logs = logs@;
            activities.insert(act.id, simple);
            logs.insert(act.id, kept);
            proof {
                let acts = db_activities@;
                assert forall|id: Id| #[trigger] activities@.contains_key(id) <==> has_id_before(acts, i + 1, id) by {
                    if has_id_before(acts, i + 1, id) && id != acts[i as int].id {
                        let k = choose|k: int| 0 <= k < i + 1 && (#[trigger] acts[k]).id == id;
                        assert(has_id_before(acts, i as int, id));
                    }
                    if has_id_before(acts, i as int, id) {
                        let k = choose|k: int| 0 <= k < i && (#[trigger] acts[k]).id == id;
                        assert(has_id_before(acts, i + 1, id));
                    }
                    if id == acts[i as int].id {
                        assert(has_id_before(acts, i + 1, id));
                    }
                }
                assert forall|id: Id| #[trigger] logs@.contains_key(id) <==> has_id_before(acts, i + 1, id) by {
                    assert(activities@.contains_key(id) <==> has_id_before(acts, i + 1, id));
                }
                assert forall|k: int|
                    #[trigger] last_before(acts, i + 1, k) implies simple_of(activities@[acts[k].id], acts[k])
                        && filtered_by(acts[k].logs@, logs@[acts[k].id]@, period_input, today, now.secs) by {
                    if k < i {
                        assert(acts[k].id != acts[i as int].id);
                        assert(last_before(acts, i as int, k));
                    }
                }
            }
            i = i + 1;
        }
        let r = BoatData { activities, logs };
        assert(r.built_from(db_activities@, period_input, today, now.secs));
        r
    }
}

/// `p` shows the activity `a` with the summed length of `logs` at `now`.
pub open spec fn printable_of(p: PrintableActivity, a: SimpleActivity, logs: Seq<Log>, now: Instant) -> bool {
    &&& p.id == a.id
    &&& p.name == a.name
    &&& p.description == a.description
    &&& p.tags@ == a.tags@
    &&& p.duration == total_duration(logs, now)
    &&& p.ongoing == any_open(logs)
}

/// `ids` lists the keys of the map, each once.
pub open spec fn lists_keys<V>(ids: Seq<Id>, m: Map<Id, V>) -> bool {
    &&& ids.no_duplicates()
    &&& forall|id: Id| #[trigger] m.contains_key(id) <==> ids.contains(id)
}

fn copy_printable(p: &PrintableActivity) -> (r: PrintableActivity)
    ensures
        r.id == p.id,
        r.name == p.name,
        r.description == p.description,
        r.tags@ == p.tags@,
        r.duration == p.duration,
        r.ongoing == p.ongoing,
{
    PrintableActivity {
        id: p.id,
        name: p.name.clone(),
        description: clone_opt_string(&p.description),
        duration: p.duration,
        ongoing: p.ongoing,
        tags: clone_strings(&p.tags),
    }
}

impl BoatData {
    /// `r` shows the activities as `shows_activities` says at some valid
    /// instant.
    pub open spec fn shows_activities_some_time(&self, r: Seq<PrintableActivity>) -> bool {
        exists|now: Instant| now.wf() && #[trigger] self.shows_activities(r, now)
    }

    /// `r` shows each activity once, with its logs measured at `now`,
    /// longest first.
    pub open spec fn shows_activities(&self, r: Seq<PrintableActivity>, now: Instant) -> bool {
        &&& exists|ids: Seq<Id>|
            #[trigger] lists_keys(ids, self.activities@) && ids.len() == r.len() && forall|j: int|
                0 <= j < r.len() ==> printable_of(
                    #[trigger] r[j],
                    self.activities@[ids[j]],
                    self.logs_of(self.activities@[ids[j]].id),
                    now,
                )
        &&& forall|i: int, j: int| 0 <= i < j < r.len() ==> (#[trigger] r[i]).duration >= (#[trigger] r[j]).duration
    }

    /// The logs stored under an id, as a slice.
    fn logs_slice(&self, id: Id) -> (r: &[Log])
        ensures
            r@ == self.logs_of(id),
    {
        match self.logs.get(&id) {
            Some(v) => v.as_slice(),
            None => &[],
        }
    }

    /// Every activity with the summed length of its logs, measured at
    /// `now`, longest first.
    pub fn get_printable_activities_at(&self, now: Instant) -> (r: Vec<PrintableActivity>)
        requires
            now.wf(),
            self.logs_wf(),
            forall|id: Id| #[trigger] self.activities@.contains_key(id) ==> durations_fit(self.logs_of(self.activities@[id].id), now),
        ensures
            self.shows_activities(r@, now),
    {
        let ghost s = spec_hash_map_iter(&self.activities).remaining();
        let mut prts: Vec<PrintableActivity> = Vec::new();
        let mut keys: Vec<i64> = Vec::new();
        for pair in it: self.activities.iter()
            invariant
                it.seq() == s,
                now.wf(),
                self.logs_wf(),
                forall|id: Id| #[trigger] self.activities@.contains_key(id) ==> durations_fit(self.logs_of(self.activities@[id].id), now),
                prts@.len() == it.index(),
                keys@.len() == it.index(),
                forall|j: int|
                    0 <= j < prts@.len() ==> printable_of(#[trigger] prts@[j], *s[j].1, self.logs_of(s[j].1.id), now)
                        && keys@[j] == prts@[j].duration,
        {
            let (_key, act) = pair;
            assert(self.activities@.contains_key(*s[it.index() as int].0));
            assert(self.activities@[*s[it.index() as int].0] == *act);
            let related = self.logs_slice(act.id);
            assert(all_logs_wf(related@)) by {
                if self.logs@.contains_key(act.id) {
                    assert(all_logs_wf(self.logs@[act.id]@));
                }
            }
            let p = PrintableActivity::from_activity_and_logs_at(act, related, now);
            keys.push(p.duration);
            prts.push(p);
        }
        let perm = sort_indices_by_key(&keys, true);
        let mut r: Vec<PrintableActivity> = Vec::new();
        let n = perm.len();
        let mut j: usize = 0;
        while j < n
            invariant
                j <= n == perm@.len() == keys@.len() == prts@.len() == s.len(),
                is_permutation(perm@, keys@.len() as nat),
                sorted_by_keys(perm@, keys@, true),
                r@.len() == j,
                forall|q: int| 0 <= q < prts@.len() ==> keys@[q] == (#[trigger] prts@[q]).duration,
                forall|q: int|
                    0 <= q < j ==> (#[trigger] r@[q]).id == prts@[perm@[q] as int].id
                        && r@[q].name == prts@[perm@[q] as int].name
                        && r@[q].description == prts@[perm@[q] as int].description
                        && r@[q].tags@ == prts@[perm@[q] as int].tags@
                        && r@[q].duration == prts@[perm@[q] as int].duration
                        && r@[q].ongoing == prts@[perm@[q] as int].ongoing,
            decreases n - j,
        {
            let q = perm[j];
            r.push(copy_printable(&prts[q]));
            j = j + 1;
        }
        proof {
            let ids = Seq::new(n as nat, |q: int| *s[perm@[q] as int].0);
            assert forall|a: int, b: int| 0 <= a < s.len() && 0 <= b < s.len() && a != b implies *s[a].0 != *s[b].0 by {
                if *s[a].0 == *s[b].0 {
                    assert(self.activities@.contains_key(*s[a].0) && self.activities@[*s[a].0] == *s[a].1);
                    assert(self.activities@.contains_key(*s[b].0) && self.activities@[*s[b].0] == *s[b].1);
                    assert(s[a] == s[b]);
                }
            }
            assert forall|a: int, b: int| 0 <= a < ids.len() && 0 <= b < ids.len() && a != b implies ids[a] != ids[b] by {
                assert(perm@[a] != perm@[b]);
            }
            assert forall|id: Id| #[trigger] self.activities@.contains_key(id) implies ids.contains(id) by {
                assert(s.contains((&id, &self.activities@[id])));
                let a = choose|a: int| 0 <= a < s.len() && s[a] == (&id, &self.activities@[id]);
                assert(perm@.contains(a as usize));
                let q = choose|q: int| 0 <= q < perm@.len() && perm@[q] == a as usize;
                assert(ids[q] == id);
            }
            assert forall|id: Id| ids.contains(id) implies #[trigger] self.activities@.contains_key(id) by {
                let q = choose|q: int| 0 <= q < ids.len() && ids[q] == id;
                assert(self.activities@.contains_key(*s[perm@[q] as int].0));
            }
            assert forall|q: int| 0 <= q < r@.len() implies printable_of(
                #[trigger] r@[q],
                self.activities@[ids[q]],
                self.logs_of(self.activities@[ids[q]].id),
                now,
            ) by {
                let a = perm@[q] as int;
                assert(self.activities@[*s[a].0] == *s[a].1);
                assert(printable_of(prts@[a], *s[a].1, self.logs_of(s[a].1.id), now));
            }
            assert(lists_keys(ids, self.activities@));
            assert forall|a: int, b: int| 0 <= a < b < r@.len() implies (#[trigger] r@[a]).duration >= (#[trigger] r@[b]).duration by {
                assert(key_le(keys@[perm@[a] as int], keys@[perm@[b] as int], true));
            }
            assert(self.shows_activities(r@, now));
        }
        r
    }

    /// Every activity with the summed length of its logs, an open log
    /// lasting until now, longest first. The clock is read once; none when
    /// it gives no usable instant.
    pub fn get_printable_activities(&self) -> (r: Option<Vec<PrintableActivity>>)
        requires
            self.logs_wf(),
            forall|id: Id, now: Instant|
                #[trigger] self.activities@.contains_key(id) && now.wf() ==> #[trigger] durations_fit(
                    self.logs_of(self.activities@[id].id),
                    now,
                ),
        ensures
            r matches Some(v) ==> self.shows_activities_some_time(v@),
    {
        match utc_now() {
            Some(now) => {
                let v = self.get_printable_activities_at(now);
                assert(now.wf() && self.shows_activities(v@, now));
                assert(self.shows_activities_some_time(v@));
                Some(v)
            },
            None => None,
        }
    }
}

/// The logs of the listed ids, one id after another.
pub open spec fn concat_logs(m: Map<Id, Vec<Log>>, ids: Seq<Id>) -> Seq<Log>
    decreases ids.len(),
{
    if ids.len() == 0 {
        Seq::<Log>::empty()
    } else {
        concat_logs(m, ids.drop_last()) + m[ids.last()]@
    }
}

/// `row` shows the log `log` of the activity `a`.
pub open spec fn log_row_of(row: PrintableActivityLog, a: SimpleActivity, log: Log) -> bool {
    &&& row.log.starts_at == log.starts_at
    &&& row.log.ends_at == log.ends_at
    &&& row.activity.id == a.id
    &&& row.activity.name == a.name
    &&& row.activity.description == a.description
    &&& row.activity.tags@ == a.tags@
}

/// `rows` shows the logs `flat` in the order `p`, each with its activity.
pub open spec fn rows_of_logs(
    rows: Seq<PrintableActivityLog>,
    acts: Map<Id, SimpleActivity>,
    flat: Seq<Log>,
    p: Seq<usize>,
) -> bool {
    &&& is_permutation(p, flat.len())
    &&& rows.len() == flat.len()
    &&& forall|j: int|
        0 <= j < rows.len() ==> log_row_of(#[trigger] rows[j], acts[flat[p[j] as int].activity_id], flat[p[j] as int])
}

/// The keys of a walk over a map, in order.
pub open spec fn walk_keys<V>(s: Seq<(&Id, &V)>) -> Seq<Id> {
    Seq::new(s.len(), |q: int| *s[q].0)
}

/// A walk that yields each entry of the map once lists each key once.
pub proof fn lemma_walk_keys<V>(m: Map<Id, V>, s: Seq<(&Id, &V)>)
    requires
        s.no_duplicates(),
        forall|i: int| 0 <= i < s.len() ==> m.contains_key(*(#[trigger] s[i]).0) && m[*s[i].0] == *s[i].1,
        forall|k: Id| #[trigger] m.contains_key(k) ==> s.contains((&k, &m[k])),
    ensures
        lists_keys(walk_keys(s), m),
{
    let ids = walk_keys(s);
    assert forall|a: int, b: int| 0 <= a < ids.len() && 0 <= b < ids.len() && a != b implies ids[a] != ids[b] by {
        if ids[a] == ids[b] {
            assert(m.contains_key(*s[a].0) && m[*s[a].0] == *s[a].1);
            assert(m.contains_key(*s[b].0) && m[*s[b].0] == *s[b].1);
            assert(s[a] == s[b]);
        }
    }
    assert forall|id: Id| #[trigger] m.contains_key(id) implies ids.contains(id) by {
        assert(s.contains((&id, &m[id])));
        let a = choose|a: int| 0 <= a < s.len() && s[a] == (&id, &m[id]);
        assert(ids[a] == id);
    }
    assert forall|id: Id| ids.contains(id) implies #[trigger] m.contains_key(id) by {
        let q = choose|q: int| 0 <= q < ids.len() && ids[q] == id;
        assert(m.contains_key(*s[q].0));
    }
}

impl BoatData {
    /// Every log with its activity, earliest start first.
    pub fn get_printable_logs(&self) -> (r: Vec<PrintableActivityLog>)
        requires
            self.logs_linked(),
        ensures
            exists|ids: Seq<Id>, p: Seq<usize>|
                lists_keys(ids, self.logs@) && #[trigger] rows_of_logs(
                    r@,
                    self.activities@,
                    concat_logs(self.logs@, ids),
                    p,
                ),
            forall|i: int, j: int|
                0 <= i < j < r@.len() ==> (#[trigger] r@[i]).log.starts_at <= (#[trigger] r@[j]).log.starts_at,
    {
        let ghost s = spec_hash_map_iter(&self.logs).remaining();
        let ghost all_ids = walk_keys(s);
        let mut flat: Vec<Log> = Vec::new();
        for pair in it: self.logs.iter()
            invariant
                it.seq() == s,
                all_ids == Seq::new(s.len(), |q: int| *s[q].0),
                self.logs_linked(),
                flat@ == concat_logs(self.logs@, all_ids.take(it.index() as int)),
                forall|t: int| 0 <= t < flat@.len() ==> self.activities@.contains_key((#[trigger] flat@[t]).activity_id),
        {
            let (key, v) = pair;
            let ghost idx = it.index() as int;
            assert(self.logs@.contains_key(*key) && self.logs@[*key] == *v);
            let ghost before = flat@;
            let mut j: usize = 0;
            while j < v.len()
                invariant
                    j <= v@.len(),
                    self.logs_linked(),
                    self.logs@.contains_key(*key),
                    self.logs@[*key] == *v,
                    flat@ == before + v@.take(j as int),
                    forall|t: int| 0 <= t < flat@.len() ==> self.activities@.contains_key((#[trigger] flat@[t]).activity_id),
                decreases v@.len() - j,
            {
                assert(self.activities@.contains_key(self.logs@[*key]@[j as int].activity_id));
                flat.push(v[j]);
                j = j + 1;
                assert(flat@ =~= before + v@.take(j as int));
            }
            assert(v@.take(v@.len() as int) =~= v@);
            assert(all_ids.take(idx + 1).drop_last() =~= all_ids.take(idx));
            assert(all_ids.take(idx + 1).last() == *key);
        }
        assert(all_ids.take(all_ids.len() as int) =~= all_ids);
        let mut keys: Vec<i64> = Vec::new();
        let mut k: usize = 0;
        while k < flat.len()
            invariant
                k <= flat@.len(),
                keys@.len() == k,
                forall|t: int| 0 <= t < k ==> keys@[t] == (#[trigger] flat@[t]).starts_at,
            decreases flat@.len() - k,
        {
            keys.push(flat[k].starts_at);
            k = k + 1;
        }
        let perm = sort_indices_by_key(&keys, false);
        let mut r: Vec<PrintableActivityLog> = Vec::new();
        let n = perm.len();
        let mut j: usize = 0;
        while j < n
            invariant
                j <= n == perm@.len() == keys@.len() == flat@.len(),
                is_permutation(perm@, keys@.len() as nat),
                forall|t: int| 0 <= t < flat@.len() ==> keys@[t] == (#[trigger] flat@[t]).starts_at,
                forall|t: int| 0 <= t < flat@.len() ==> self.activities@.contains_key((#[trigger] flat@[t]).activity_id),
                r@.len() == j,
                forall|q: int|
                    0 <= q < j ==> log_row_of(
                        #[trigger] r@[q],
                        self.activities@[flat@[perm@[q] as int].activity_id],
                        flat@[perm@[q] as int],
                    ),
            decreases n - j,
        {
            let log = &flat[perm[j]];
            let act = self.activities.get(&log.activity_id).unwrap();
            r.push(PrintableActivityLog::from_activity_and_log(act, log));
            j = j + 1;
        }
        assert forall|a: int, b: int| 0 <= a < b < r@.len() implies (#[trigger] r@[a]).log.starts_at <= (#[trigger] r@[b]).log.starts_at by {
            assert(key_le(keys@[perm@[a] as int], keys@[perm@[b] as int], false));
        }
        proof {
            lemma_walk_keys(self.logs@, s);
            assert(rows_of_logs(r@, self.activities@, concat_logs(self.logs@, all_ids), perm@));
        }
        r
    }
}

/// The pieces one after another.
pub open spec fn concat_texts(parts: Seq<Seq<char>>) -> Seq<char>
    decreases parts.len(),
{
    if parts.len() == 0 {
        Seq::<char>::empty()
    } else {
        concat_texts(parts.drop_last()) + parts.last()
    }
}

/// The comment lines that open an export when instructions are asked for.
pub open spec fn csv_intro() -> Seq<char> {
    "# This is a CSV export of your activities and logs.\n"@
        + "# Lines starting with '#' are comments and should not be modified.\n"@
        + "# Activity definitions are included for reference but are not meant to be edited.\n"@
        + "# You may only edit activity logs here.\n#\n"@
}

/// The head of the table of activity definitions.
pub open spec fn csv_defs_head() -> Seq<char> {
    "# Activity definitions:\n"@ + "# | ID | Name | Description | Tags |\n"@
        + "# | -- | ---- | ----------- | ---- |\n"@
}

/// The instructions that precede the logs.
pub open spec fn csv_outro() -> Seq<char> {
    "# Below are your activity logs. You can edit the start and end times here.\n"@
        + "# If you want to mark the latest activity as ongoing, simply remove the end time (leave it blank) for that log.\n"@
        + "# Please keep the activity_id and log_id unchanged to avoid breaking the data.\n#\n"@
}

/// The head of the log section.
pub open spec fn csv_logs_head() -> Seq<char> {
    "# Logs (activity_id,log_id,starts_at,ends_at):\n"@ + "# ===== EDIT DATA BELOW =====\n"@
}

/// A definition line of an activity, with its tags written as `tags`.
pub open spec fn definition_line(a: SimpleActivity, tags: Seq<char>) -> Seq<char> {
    "# | "@ + int_text(a.id as int) + " | "@ + a.name@ + " | "@ + description_text(a.description) + " | "@
        + tags + " |\n"@
}

/// A log line: the ids, then the local start and end, the end empty for an
/// open log.
pub open spec fn log_line(act_id: Id, log_id: Id, start: DateTimeFields, end: Option<DateTimeFields>) -> Seq<char> {
    int_text(act_id as int) + ","@ + int_text(log_id as int) + ","@ + date_time_text(
        DateTimeRenderMode::DateAndTime,
        start,
    ) + ","@ + match end {
        Some(f) => date_time_text(DateTimeRenderMode::DateAndTime, f),
        None => Seq::<char>::empty(),
    } + "\n"@
}

/// `line` defines the activity, its tags sorted.
pub open spec fn defines(line: Seq<char>, a: SimpleActivity) -> bool {
    exists|t: Seq<char>| tags_text(a.tags@, t) && line == definition_line(a, t)
}

/// `end` is the local wall clock of the end of the log, if it has one.
pub open spec fn local_end(log: Log, end: Option<DateTimeFields>) -> bool {
    match (end, log.ends_at) {
        (Some(f), Some(e)) => f.wf() && f.date.wf() && local_fields_of(e as int, f),
        (None, None) => true,
        _ => false,
    }
}

/// `line` shows the log of the activity `act_id`, with its start and end as
/// wall-clock times of the local time zone.
pub open spec fn shows_log(line: Seq<char>, act_id: Id, log: Log) -> bool {
    exists|start: DateTimeFields, end: Option<DateTimeFields>|
        start.wf() && start.date.wf() && local_fields_of(log.starts_at as int, start) && local_end(log, end) && line
            == log_line(act_id, log.id, start, end)
}

/// The export: its optional parts around the definition and log lines.
pub open spec fn csv_text(instr: bool, defs: bool, def_lines: Seq<Seq<char>>, log_lines: Seq<Seq<char>>) -> Seq<char> {
    (if instr { csv_intro() } else { Seq::<char>::empty() })
        + (if defs { csv_defs_head() + concat_texts(def_lines) + "\n\n"@ } else { Seq::<char>::empty() })
        + (if instr { csv_outro() } else { Seq::<char>::empty() })
        + csv_logs_head()
        + concat_texts(log_lines)
}

/// The ids in strictly ascending order.
pub open spec fn ascending(ids: Seq<Id>) -> bool {
    forall|i: int, j: int| 0 <= i < j < ids.len() ==> #[trigger] ids[i] < #[trigger] ids[j]
}

/// Each log of the listed activities, with its activity id, activity after
/// activity.
pub open spec fn id_logs(data: BoatData, ids: Seq<Id>) -> Seq<(Id, Log)>
    decreases ids.len(),
{
    if ids.len() == 0 {
        Seq::<(Id, Log)>::empty()
    } else {
        id_logs(data, ids.drop_last()) + data.logs_of(ids.last()).map_values(|l: Log| (ids.last(), l))
    }
}

/// The listed ids that have logs, in order.
pub open spec fn active_ids(data: BoatData, ids: Seq<Id>) -> Seq<Id>
    decreases ids.len(),
{
    if ids.len() == 0 {
        Seq::<Id>::empty()
    } else if data.logs_of(ids.last()).len() > 0 {
        active_ids(data, ids.drop_last()).push(ids.last())
    } else {
        active_ids(data, ids.drop_last())
    }
}

/// The start times of the rows.
pub open spec fn row_starts(rows: Seq<(Id, Log)>) -> Seq<i64> {
    rows.map_values(|r: (Id, Log)| r.1.starts_at)
}

/// The export of `data` is built from these parts: `ids` are the activity
/// keys in ascending order, `def_lines` define those with logs, and
/// `log_lines` show all their logs in the order `p`, a stable sort by start.
pub open spec fn csv_parts(
    data: BoatData,
    ids: Seq<Id>,
    def_lines: Seq<Seq<char>>,
    p: Seq<usize>,
    log_lines: Seq<Seq<char>>,
) -> bool {
    let active = active_ids(data, ids);
    let rows = id_logs(data, active);
    &&& lists_keys(ids, data.activities@)
    &&& ascending(ids)
    &&& def_lines.len() == active.len()
    &&& forall|i: int| 0 <= i < def_lines.len() ==> #[trigger] defines(def_lines[i], data.activities@[active[i]])
    &&& is_permutation(p, rows.len())
    &&& sorted_by_keys(p, row_starts(rows), false)
    &&& stable_by_keys(p, row_starts(rows))
    &&& log_lines.len() == rows.len()
    &&& forall|j: int| 0 <= j < log_lines.len() ==> #[trigger] shows_log(log_lines[j], rows[p[j] as int].0, rows[p[j] as int].1)
}

impl BoatData {
    /// The tags of each activity form a set.
    pub open spec fn tags_wf(&self) -> bool {
        forall|id: Id| #[trigger] self.activities@.contains_key(id) ==> self.activities@[id].wf()
    }

    /// Each activity is stored under its own id.
    pub open spec fn keys_match(&self) -> bool {
        forall|id: Id| #[trigger] self.activities@.contains_key(id) ==> self.activities@[id].id == id
    }

    /// The activity keys in ascending order.
    fn sorted_keys(&self) -> (r: Vec<Id>)
        ensures
            lists_keys(r@, self.activities@),
            ascending(r@),
    {
        let ghost s = spec_hash_map_iter(&self.activities).remaining();
        let mut ids: Vec<Id> = Vec::new();
        for pair in it: self.activities.iter()
            invariant
                it.seq() == s,
                ids@ == walk_keys(s).take(it.index() as int),
        {
            let (key, _act) = pair;
            ids.push(*key);
            assert(ids@ =~= walk_keys(s).take(it.index() + 1));
        }
        assert(ids@ =~= walk_keys(s));
        proof {
            lemma_walk_keys(self.activities@, s);
        }
        let perm = sort_indices_by_key(&ids, false);
        let mut r: Vec<Id> = Vec::new();
        let n = perm.len();
        let mut j: usize = 0;
        while j < n
            invariant
                j <= n == perm@.len() == ids@.len(),
                is_permutation(perm@, ids@.len() as nat),
                r@.len() == j,
                forall|q: int| 0 <= q < j ==> #[trigger] r@[q] == ids@[perm@[q] as int],
            decreases n - j,
        {
            r.push(ids[perm[j]]);
            j = j + 1;
        }
        proof {
            assert forall|a: int, b: int| 0 <= a < b < r@.len() implies #[trigger] r@[a] < #[trigger] r@[b] by {
                assert(key_le(ids@[perm@[a] as int], ids@[perm@[b] as int], false));
                assert(perm@[a] != perm@[b]);
                assert(ids@.no_duplicates());
            }
            assert forall|id: Id| #[trigger] self.activities@.contains_key(id) <==> r@.contains(id) by {
                if self.activities@.contains_key(id) {
                    assert(ids@.contains(id));
                    let a = choose|a: int| 0 <= a < ids@.len() && ids@[a] == id;
                    assert(perm@.contains(a as usize));
                    let q = choose|q: int| 0 <= q < perm@.len() && perm@[q] == a as usize;
                    assert(r@[q] == id);
                }
                if r@.contains(id) {
                    let q = choose|q: int| 0 <= q < r@.len() && r@[q] == id;
                    assert(ids@.contains(ids@[perm@[q] as int]));
                }
            }
        }
        r
    }
}

/// Appends the definition line of an activity.
fn push_definition_line(out: &mut Vec<char>, a: &SimpleActivity)
    ensures
        exists|line: Seq<char>| defines(line, *a) && final(out)@ == old(out)@ + line,
{
    let tags = tags_str(&a.tags);
    push_str(out, "# | ");
    push_int(out, a.id);
    push_str(out, " | ");
    push_str(out, a.name.as_str());
    push_str(out, " | ");
    let d = description_or_empty(&a.description);
    push_str(out, d.as_str());
    push_str(out, " | ");
    push_str(out, tags.as_str());
    push_str(out, " |\n");
    assert(out@ =~= old(out)@ + definition_line(*a, tags@));
    assert(defines(definition_line(*a, tags@), *a));
}

/// Appends the line of a log with the given wall-clock times.
#[verifier::spinoff_prover]
fn push_log_text(out: &mut Vec<char>, act_id: Id, log_id: Id, start: &DateTimeFields, end: &Option<DateTimeFields>)
    requires
        start.wf(),
        end matches Some(f) ==> f.wf(),
    ensures
        final(out)@ == old(out)@ + log_line(act_id, log_id, *start, *end),
{
    push_int(out, act_id);
    push_str(out, ",");
    push_int(out, log_id);
    push_str(out, ",");
    let st = DateTimeRenderMode::DateAndTime.render_date_time(start);
    push_str(out, st.as_str());
    push_str(out, ",");
    match end {
        Some(f) => {
            let et = DateTimeRenderMode::DateAndTime.render_date_time(f);
            push_str(out, et.as_str());
        },
        None => {},
    }
    push_str(out, "\n");
    assert(out@ =~= old(out)@ + log_line(act_id, log_id, *start, *end));
}

/// Appends the line of a log, its times in the local time zone.
fn push_log_line(out: &mut Vec<char>, act_id: Id, log: &Log)
    requires
        log.wf(),
    ensures
        exists|line: Seq<char>| shows_log(line, act_id, *log) && final(out)@ == old(out)@ + line,
{
    let start = local_date_time_of(log.starts_at).unwrap();
    let end: Option<DateTimeFields> = match log.ends_at {
        Some(e) => Some(local_date_time_of(e).unwrap()),
        None => None,
    };
    assert(local_end(*log, end));
    push_log_text(out, act_id, log.id, &start, &end);
    assert(shows_log(log_line(act_id, log.id, start, end), act_id, *log));
}

impl BoatData {
    /// The data as CSV for editing: optional instructions and activity
    /// definitions in comment lines, then one line per log, earliest start
    /// first, times in the local time zone.
    pub fn to_csv_str(&self, include_instructions: bool, include_activity_definitions: bool) -> (r: String)
        requires
            self.keys_match(),
            self.logs_wf(),
        ensures
            exists|ids: Seq<Id>, def_lines: Seq<Seq<char>>, p: Seq<usize>, log_lines: Seq<Seq<char>>|
                #[trigger] csv_parts(*self, ids, def_lines, p, log_lines) && r@ == csv_text(
                    include_instructions,
                    include_activity_definitions,
                    def_lines,
                    log_lines,
                ),
    {
        let mut out: Vec<char> = Vec::new();
        if include_instructions {
            push_str(&mut out, "# This is a CSV export of your activities and logs.\n");
            push_str(&mut out, "# Lines starting with '#' are comments and should not be modified.\n");
            push_str(
                &mut out,
                "# Activity definitions are included for reference but are not meant to be edited.\n",
            );
            push_str(&mut out, "# You may only edit activity logs here.\n#\n");
        }
        if include_activity_definitions {
            push_str(&mut out, "# Activity definitions:\n");
            push_str(&mut out, "# | ID | Name | Description | Tags |\n");
            push_str(&mut out, "# | -- | ---- | ----------- | ---- |\n");
        }
        let ghost head = out@;
        assert(head =~= (if include_instructions { csv_intro() } else { Seq::<char>::empty() }) + (
        if include_activity_definitions { csv_defs_head() } else { Seq::<char>::empty() }));
        let ids = self.sorted_keys();
        let mut row_ids: Vec<Id> = Vec::new();
        let mut row_logs: Vec<Log> = Vec::new();
        let ghost mut def_lines: Seq<Seq<char>> = Seq::empty();
        let mut i: usize = 0;
        while i < ids.len()
            invariant
                i <= ids@.len(),
                self.keys_match(),
                self.logs_wf(),
                lists_keys(ids@, self.activities@),
                row_ids@.len() == row_logs@.len(),
                id_logs(*self, active_ids(*self, ids@.take(i as int))) == Seq::new(
                    row_ids@.len(),
                    |q: int| (row_ids@[q], row_logs@[q]),
                ),
                forall|q: int| 0 <= q < row_logs@.len() ==> (#[trigger] row_logs@[q]).wf(),
                def_lines.len() == active_ids(*self, ids@.take(i as int)).len(),
                forall|q: int|
                    0 <= q < def_lines.len() ==> #[trigger] defines(
                        def_lines[q],
                        self.activities@[active_ids(*self, ids@.take(i as int))[q]],
                    ),
                out@ == head + (if include_activity_definitions { concat_texts(def_lines) } else { Seq::<char>::empty() }),
            decreases ids@.len() - i,
        {
            let id = ids[i];
            let ghost prev_active = active_ids(*self, ids@.take(i as int));
            let ghost prev_rows = id_logs(*self, prev_active);
            assert(ids@.take(i + 1).drop_last() =~= ids@.take(i as int));
            assert(ids@.take(i + 1).last() == id);
            let logs = self.logs_slice(id);
            if logs.len() > 0 {
                assert(active_ids(*self, ids@.take(i + 1)) == prev_active.push(id));
                assert(self.logs@.contains_key(id));
                assert(all_logs_wf(self.logs@[id]@));
                let ghost rows_before = Seq::new(row_ids@.len(), |q: int| (row_ids@[q], row_logs@[q]));
                let mut k: usize = 0;
                while k < logs.len()
                    invariant
                        k <= logs@.len(),
                        logs@ == self.logs_of(id),
                        all_logs_wf(logs@),
                        row_ids@.len() == row_logs@.len(),
                        Seq::new(row_ids@.len(), |q: int| (row_ids@[q], row_logs@[q])) == rows_before
                            + logs@.take(k as int).map_values(|l: Log| (id, l)),
                        forall|q: int| 0 <= q < row_logs@.len() ==> (#[trigger] row_logs@[q]).wf(),
                    decreases logs@.len() - k,
                {
                    let ghost before = Seq::new(row_ids@.len(), |q: int| (row_ids@[q], row_logs@[q]));
                    row_ids.push(id);
                    row_logs.push(logs[k]);
                    k = k + 1;
                    assert(Seq::new(row_ids@.len(), |q: int| (row_ids@[q], row_logs@[q])) =~= before.push(
                        (id, logs@[k - 1]),
                    ));
                    assert(logs@.take(k as int).map_values(|l: Log| (id, l)) =~= logs@.take(k - 1).map_values(
                        |l: Log| (id, l),
                    ).push((id, logs@[k - 1])));
                }
                assert(logs@.take(logs@.len() as int) =~= logs@);
                proof {
                    let cur = active_ids(*self, ids@.take(i + 1));
                    assert(cur.drop_last() =~= prev_active);
                    assert(cur.last() == id);
                    assert(id_logs(*self, cur) == prev_rows + self.logs_of(id).map_values(|l: Log| (id, l)));
                    assert(Seq::new(row_ids@.len(), |q: int| (row_ids@[q], row_logs@[q])) =~= id_logs(*self, cur));
                }
                assert(self.activities@.contains_key(id)) by {
                    assert(ids@.contains(id));
                }
                let act = self.activities.get(&id).unwrap();
                let ghost line: Seq<char>;
                if include_activity_definitions {
                    let ghost out_before = out@;
                    push_definition_line(&mut out, act);
                    proof {
                        line = choose|line: Seq<char>| defines(line, *act) && out@ == out_before + line;
                    }
                } else {
                    let tags = tags_str(&act.tags);
                    proof {
                        line = definition_line(*act, tags@);
                    }
                }
                proof {
                    let old_defs = def_lines;
                    def_lines = def_lines.push(line);
                    assert(def_lines.drop_last() =~= old_defs);
                    assert forall|q: int| 0 <= q < def_lines.len() implies #[trigger] defines(
                        def_lines[q],
                        self.activities@[active_ids(*self, ids@.take(i + 1))[q]],
                    ) by {
                        if q < old_defs.len() {
                            assert(def_lines[q] == old_defs[q]);
                            assert(active_ids(*self, ids@.take(i + 1))[q] == prev_active[q]);
                        } else {
                            assert(active_ids(*self, ids@.take(i + 1))[q] == id);
                        }
                    }
                }
            } else {
                assert(active_ids(*self, ids@.take(i + 1)) == prev_active);
            }
            i = i + 1;
        }
        assert(ids@.take(ids@.len() as int) =~= ids@);
        let ghost active = active_ids(*self, ids@);
        let ghost rows = id_logs(*self, active);
        if include_activity_definitions {
            push_str(&mut out, "\n\n");
        }
        if include_instructions {
            push_str(&mut out, "# Below are your activity logs. You can edit the start and end times here.\n");
            push_str(
                &mut out,
                "# If you want to mark the latest activity as ongoing, simply remove the end time (leave it blank) for that log.\n",
            );
            push_str(&mut out, "# Please keep the activity_id and log_id unchanged to avoid breaking the data.\n#\n");
        }
        push_str(&mut out, "# Logs (activity_id,log_id,starts_at,ends_at):\n");
        push_str(&mut out, "# ===== EDIT DATA BELOW =====\n");
        let ghost before_logs = out@;
        assert(before_logs =~= csv_text(include_instructions, include_activity_definitions, def_lines, Seq::empty()));
        let mut keys: Vec<i64> = Vec::new();
        let mut k: usize = 0;
        while k < row_logs.len()
            invariant
                k <= row_logs@.len(),
                keys@.len() == k,
                forall|t: int| 0 <= t < k ==> keys@[t] == (#[trigger] row_logs@[t]).starts_at,
            decreases row_logs@.len() - k,
        {
            keys.push(row_logs[k].starts_at);
            k = k + 1;
        }
        assert(keys@ =~= row_starts(rows));
        let perm = sort_indices_by_key(&keys, false);
        let ghost mut log_lines: Seq<Seq<char>> = Seq::empty();
        let n = perm.len();
        let mut j: usize = 0;
        while j < n
            invariant
                j <= n == perm@.len() == keys@.len() == row_logs@.len() == row_ids@.len() == rows.len(),
                is_permutation(perm@, keys@.len() as nat),
                rows == Seq::new(row_ids@.len(), |q: int| (row_ids@[q], row_logs@[q])),
                forall|q: int| 0 <= q < row_logs@.len() ==> (#[trigger] row_logs@[q]).wf(),
                log_lines.len() == j,
                forall|q: int|
                    0 <= q < log_lines.len() ==> #[trigger] shows_log(
                        log_lines[q],
                        rows[perm@[q] as int].0,
                        rows[perm@[q] as int].1,
                    ),
                out@ == before_logs + concat_texts(log_lines),
            decreases n - j,
        {
            let q = perm[j];
            let ghost out_before = out@;
            push_log_line(&mut out, row_ids[q], &row_logs[q]);
            let ghost line = choose|line: Seq<char>|
                shows_log(line, row_ids@[q as int], row_logs@[q as int]) && out@ == out_before + line;
            proof {
                let old_lines = log_lines;
                log_lines = log_lines.push(line);
                assert(log_lines.drop_last() =~= old_lines);
                assert(rows[q as int] == (row_ids@[q as int], row_logs@[q as int]));
                assert forall|x: int| 0 <= x < log_lines.len() implies #[trigger] shows_log(
                    log_lines[x],
                    rows[perm@[x] as int].0,
                    rows[perm@[x] as int].1,
                ) by {
                    if x < old_lines.len() {
                        assert(log_lines[x] == old_lines[x]);
                    }
                }
                assert(out@ =~= before_logs + concat_texts(log_lines));
            }
            j = j + 1;
        }
        assert(csv_parts(*self, ids@, def_lines, perm@, log_lines));
        assert(out@ =~= csv_text(include_instructions, include_activity_definitions, def_lines, log_lines));
        string_from_chars(&out)
    }
}

} // verus!

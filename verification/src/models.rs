use vstd::prelude::*;

use crate::date::{
    compact_duration_text, format_duration, date_time_text, duration_parts, local_date_time_of, local_fields_of, pretty_format_duration, ts_in_range,
    clock_error, clock_error_text, ts_stored, utc_now, DateTimeFields, DateTimeRenderMode, Instant,
};
use crate::paint::{green, green_code, painted};
use crate::sorting::{is_sorted_text, sort_texts};
use crate::text::{chars_eq_ignore_ascii_case, eq_ignore_ascii_case, push_str, chars_of, int_text, int_to_string, join, join_chars, string_from_chars, string_of, views};

verus! {

/// The identifier of a stored activity, log or tag.
pub type Id = i64;

/// A time-tracking log: when an activity started and, unless it is still
/// going on, when it ended (Unix timestamps, UTC, in seconds).
#[derive(Clone, Copy, Debug, PartialEq, Eq, Structural)]
pub struct Log {
    pub id: Id,
    pub activity_id: Id,
    pub starts_at: i64,
    pub ends_at: Option<i64>,
}

impl Log {
    /// Both ends lie in the years 0 to 9999, as stored logs do.
    pub open spec fn wf(self) -> bool {
        ts_stored(self.starts_at as int) && (self.ends_at matches Some(e) ==> ts_stored(e as int))
    }
}

/// Whether every log of the sequence is well formed.
pub open spec fn all_logs_wf(logs: Seq<Log>) -> bool {
    forall|i: int| 0 <= i < logs.len() ==> (#[trigger] logs[i]).wf()
}


/// An activity as stored: its logs, newest first.
#[derive(Clone, Debug)]
pub struct Activity {
    pub id: Id,
    pub name: String,
    pub description: Option<String>,
    pub tags: Vec<String>,
    pub logs: Vec<Log>,
}

/// The tags form a set: no tag is given twice.
pub open spec fn distinct_tags(tags: Seq<String>) -> bool {
    texts(tags).no_duplicates()
}

impl Activity {
    /// The activity's tags form a set, as stored tags do.
    pub open spec fn tags_wf(&self) -> bool {
        distinct_tags(self.tags@)
    }
}

/// Copies a list of strings.
pub fn clone_strings(v: &Vec<String>) -> (r: Vec<String>)
    ensures
        r@ == v@,
{
    let mut r: Vec<String> = Vec::new();
    let mut i: usize = 0;
    while i < v.len()
        invariant
            i <= v.len(),
            r@ == v@.take(i as int),
        decreases v.len() - i,
    {
        r.push(v[i].clone());
        i = i + 1;
        assert(r@ =~= v@.take(i as int));
    }
    assert(v@.take(v.len() as int) =~= v@);
    r
}

/// Copies an optional string.
pub fn clone_opt_string(o: &Option<String>) -> (r: Option<String>)
    ensures
        r == *o,
{
    match o {
        Some(s) => Some(s.clone()),
        None => None,
    }
}

/// An activity without its logs.
#[derive(Clone, Debug)]
pub struct SimpleActivity {
    pub id: Id,
    pub name: String,
    pub description: Option<String>,
    pub tags: Vec<String>,
}

impl SimpleActivity {
    /// The activity's tags form a set.
    pub open spec fn wf(&self) -> bool {
        distinct_tags(self.tags@)
    }

    /// The activity part of a stored activity.
    pub fn from_db_activity(activity: &Activity) -> (r: SimpleActivity)
        ensures
            r.id == activity.id,
            r.name == activity.name,
            r.description == activity.description,
            r.tags@ == activity.tags@,
            activity.tags_wf() ==> r.wf(),
    {
        SimpleActivity {
            id: activity.id,
            name: activity.name.clone(),
            description: clone_opt_string(&activity.description),
            tags: clone_strings(&activity.tags),
        }
    }

    /// A copy of the activity.
    pub fn copy(&self) -> (r: SimpleActivity)
        ensures
            r.id == self.id,
            r.name == self.name,
            r.description == self.description,
            r.tags@ == self.tags@,
            self.wf() ==> r.wf(),
    {
        SimpleActivity {
            id: self.id,
            name: self.name.clone(),
            description: clone_opt_string(&self.description),
            tags: clone_strings(&self.tags),
        }
    }
}

/// The texts of a list of strings.
pub open spec fn texts(v: Seq<String>) -> Seq<Seq<char>> {
    v.map_values(|s: String| s@)
}

/// Tags in ascending order, separated by commas.
pub open spec fn tags_text(tags: Seq<String>, r: Seq<char>) -> bool {
    exists|sorted: Seq<Seq<char>>|
        is_sorted_text(sorted) && sorted.to_multiset() == texts(tags).to_multiset() && r == join(
            sorted,
            ","@,
        )
}

/// The tags, sorted, separated by commas.
pub fn tags_str(tags: &Vec<String>) -> (r: String)
    ensures
        tags_text(tags@, r@),
{
    let mut v: Vec<Vec<char>> = Vec::new();
    let mut i: usize = 0;
    while i < tags.len()
        invariant
            i <= tags.len(),
            views(v@) == texts(tags@).take(i as int),
        decreases tags.len() - i,
    {
        let ghost prev = v@;
        let c = chars_of(tags[i].as_str());
        v.push(c);
        i = i + 1;
        assert(views(v@) =~= texts(tags@).take(i as int)) by {
            assert(views(v@) =~= views(prev).push(c@));
        }
    }
    assert(texts(tags@).take(tags.len() as int) =~= texts(tags@));
    let sorted = sort_texts(v);
    let joined = join_chars(&sorted, ",");
    string_from_chars(&joined)
}


/// Whole seconds from `start` to the instant `now`, rounded toward zero.
pub open spec fn seconds_until(now: Instant, start: i64) -> int {
    if now.secs >= start || now.nanos == 0 {
        now.secs - start
    } else {
        now.secs - start + 1
    }
}

/// The length of a log in seconds; an open log lasts until `now`.
pub open spec fn log_duration(log: Log, now: Instant) -> int {
    match log.ends_at {
        Some(e) => e - log.starts_at,
        None => seconds_until(now, log.starts_at),
    }
}

/// The summed length of logs.
pub open spec fn total_duration(logs: Seq<Log>, now: Instant) -> int
    decreases logs.len(),
{
    if logs.len() == 0 {
        0
    } else {
        total_duration(logs.drop_last(), now) + log_duration(logs.last(), now)
    }
}

/// Every partial sum of the log lengths fits an `i64`.
pub open spec fn durations_fit(logs: Seq<Log>, now: Instant) -> bool {
    forall|k: int| 0 <= k <= logs.len() ==> i64::MIN <= #[trigger] total_duration(logs.take(k), now) <= i64::MAX
}

/// Whether some log has no end.
pub open spec fn any_open(logs: Seq<Log>) -> bool {
    exists|i: int| 0 <= i < logs.len() && (#[trigger] logs[i]).ends_at is None
}

fn duration_of(log: &Log, now: Instant) -> (r: i64)
    requires
        log.wf(),
        now.wf(),
    ensures
        r == log_duration(*log, now),
{
    match log.ends_at {
        Some(e) => e - log.starts_at,
        None => {
            if now.secs >= log.starts_at || now.nanos == 0 {
                now.secs - log.starts_at
            } else {
                now.secs - log.starts_at + 1
            }
        },
    }
}

/// A log with its times as instants.
#[derive(Clone, Copy, Debug, PartialEq, Eq, Structural)]
pub struct PrintableLog {
    pub starts_at: i64,
    pub ends_at: Option<i64>,
}

impl PrintableLog {
    pub open spec fn as_log(self) -> Log {
        Log { id: 0, activity_id: 0, starts_at: self.starts_at, ends_at: self.ends_at }
    }

    /// The times of a stored log.
    pub fn from_log(log: &Log) -> (r: Self)
        ensures
            r.starts_at == log.starts_at,
            r.ends_at == log.ends_at,
    {
        PrintableLog { starts_at: log.starts_at, ends_at: log.ends_at }
    }

    /// The length of the log in seconds, an open log lasting until `now`.
    pub fn duration_sec_at(&self, now: Instant) -> (r: i64)
        requires
            self.as_log().wf(),
            now.wf(),
        ensures
            r == log_duration(self.as_log(), now),
    {
        duration_of(&self.as_log_exec(), now)
    }

    fn as_log_exec(&self) -> (r: Log)
        ensures
            r == self.as_log(),
    {
        Log { id: 0, activity_id: 0, starts_at: self.starts_at, ends_at: self.ends_at }
    }

    /// The length of the log in seconds, an open log lasting until now;
    /// none for an open log when the system clock gives no usable instant.
    pub fn duration_sec(&self) -> (r: Option<i64>)
        requires
            self.as_log().wf(),
        ensures
            r matches Some(d) ==> exists|now: Instant| now.wf() && d == log_duration(self.as_log(), now),
            self.ends_at matches Some(e) ==> r == Some((e - self.starts_at) as i64),
    {
        match self.ends_at {
            Some(e) => {
                let ghost any = Instant { secs: 0, nanos: 0 };
                assert(any.wf() && e - self.starts_at == log_duration(self.as_log(), any));
                Some(e - self.starts_at)
            },
            None => match utc_now() {
                Some(now) => Some(self.duration_sec_at(now)),
                None => None,
            },
        }
    }
}

/// An activity with the time spent on it.
#[derive(Clone, Debug)]
pub struct PrintableActivity {
    pub id: Id,
    pub name: String,
    pub description: Option<String>,
    pub duration: i64,
    pub ongoing: bool,
    pub tags: Vec<String>,
}

impl PrintableActivity {
    /// The activity with the summed length of its logs, measured at `now`,
    /// and whether one of them goes on.
    pub fn from_activity_and_logs_at(activity: &SimpleActivity, logs: &[Log], now: Instant) -> (r: Self)
        requires
            all_logs_wf(logs@),
            now.wf(),
            durations_fit(logs@, now),
        ensures
            r.id == activity.id,
            r.name == activity.name,
            r.description == activity.description,
            r.tags@ == activity.tags@,
            r.duration == total_duration(logs@, now),
            r.ongoing == any_open(logs@),
    {
        let mut total: i64 = 0;
        let mut ongoing = false;
        let mut i: usize = 0;
        assert(logs@.take(0) =~= Seq::<Log>::empty());
        while i < logs.len()
            invariant
                i <= logs.len(),
                all_logs_wf(logs@),
                now.wf(),
                durations_fit(logs@, now),
                total == total_duration(logs@.take(i as int), now),
                ongoing == exists|j: int| 0 <= j < i && (#[trigger] logs@[j]).ends_at is None,
            decreases logs.len() - i,
        {
            assert(logs@.take(i + 1).drop_last() =~= logs@.take(i as int));
            let d = duration_of(&logs[i], now);
            assert(i64::MIN <= total_duration(logs@.take(i + 1), now) <= i64::MAX);
            total = total + d;
            if logs[i].ends_at.is_none() {
                ongoing = true;
            }
            i = i + 1;
        }
        assert(logs@.take(logs.len() as int) =~= logs@);
        PrintableActivity {
            id: activity.id,
            name: activity.name.clone(),
            description: clone_opt_string(&activity.description),
            duration: total,
            ongoing,
            tags: clone_strings(&activity.tags),
        }
    }

    /// The activity with the summed length of its logs, an open log lasting
    /// until now; none when the system clock gives no usable instant.
    pub fn from_activity_and_logs(activity: &SimpleActivity, logs: &[Log]) -> (r: Option<Self>)
        requires
            all_logs_wf(logs@),
            forall|now: Instant| now.wf() ==> durations_fit(logs@, now),
        ensures
            r matches Some(a) ==> exists|now: Instant|
                now.wf() && a.id == activity.id && a.name == activity.name && a.description
                    == activity.description && a.tags@ == activity.tags@ && a.duration
                    == total_duration(logs@, now) && a.ongoing == any_open(logs@),
    {
        match utc_now() {
            Some(now) => Some(Self::from_activity_and_logs_at(activity, logs, now)),
            None => None,
        }
    }
}


/// A column alignment: left `<`, centred `^` or right `>`.
pub open spec fn is_alignment(c: char) -> bool {
    c == '<' || c == '^' || c == '>'
}

/// A displayable column: the key that selects it, its header, and its
/// alignment (`<`, `^` or `>`).
pub type FieldSpec = (&'static str, &'static str, char);

/// Items that are shown as rows of a table.
pub trait RowPrintable: Sized {
    /// Every available column, in default display order.
    spec fn field_spec_list() -> Seq<FieldSpec>;

    /// Whether the item can be shown.
    spec fn printable(&self) -> bool;

    /// What the item may show in column `j`.
    spec fn value_ok(&self, j: int, v: Seq<char>) -> bool;

    /// How the item may style the text of a cell.
    spec fn cell_ok(&self, value: Seq<char>, cell: Seq<char>) -> bool;

    /// Every available column, in default display order.
    fn field_specs() -> (r: Vec<FieldSpec>)
        ensures
            r@ == Self::field_spec_list(),
            forall|k: int| 0 <= k < r@.len() ==> is_alignment(#[trigger] r@[k].2),
    ;

    /// Whether showing the item reads the system clock.
    spec fn reads_clock(&self) -> bool;

    /// The texts of the columns, in the order of `field_specs`; an error
    /// when the item reads the system clock and it gives no usable instant.
    fn row_values(&self) -> (r: Result<Vec<String>, String>)
        requires
            self.printable(),
        ensures
            match r {
                Ok(r) => r.len() == Self::field_spec_list().len() && forall|j: int|
                    0 <= j < r.len() ==> self.value_ok(j, #[trigger] r@[j]@),
                Err(e) => self.reads_clock() && e@ == clock_error_text(),
            },
    ;

    /// The text of a cell, styled for this item.
    fn style_cell(&self, value: String) -> (r: String)
        ensures
            self.cell_ok(value@, r@),
    ;
}

/// The optional description, or nothing.
pub open spec fn description_text(d: Option<String>) -> Seq<char> {
    match d {
        Some(s) => s@,
        None => Seq::<char>::empty(),
    }
}

/// The description, or an empty string.
pub fn description_or_empty(d: &Option<String>) -> (r: String)
    ensures
        r@ == description_text(*d),
{
    match d {
        Some(s) => s.clone(),
        None => String::new(),
    }
}

/// A duration in the short form of `pretty_format_duration`.
pub open spec fn short_duration_text(seconds: int) -> Seq<char> {
    join(duration_parts(seconds, false), " "@)
}

impl RowPrintable for PrintableActivity {
    open spec fn field_spec_list() -> Seq<FieldSpec> {
        seq![
            ("id", "ID", '>'),
            ("name", "Name", '<'),
            ("description", "Description", '<'),
            ("tags", "Tags", '<'),
            ("duration", "Duration", '<'),
        ]
    }

    open spec fn printable(&self) -> bool {
        true
    }

    open spec fn value_ok(&self, j: int, v: Seq<char>) -> bool {
        if j == 0 {
            v == int_text(self.id as int)
        } else if j == 1 {
            v == self.name@
        } else if j == 2 {
            v == description_text(self.description)
        } else if j == 3 {
            tags_text(self.tags@, v)
        } else {
            v == short_duration_text(self.duration as int)
        }
    }

    open spec fn reads_clock(&self) -> bool {
        false
    }

    open spec fn cell_ok(&self, value: Seq<char>, cell: Seq<char>) -> bool {
        cell == value
    }

    fn field_specs() -> (r: Vec<FieldSpec>) {
        vec![
            ("id", "ID", '>'),
            ("name", "Name", '<'),
            ("description", "Description", '<'),
            ("tags", "Tags", '<'),
            ("duration", "Duration", '<'),
        ]
    }

    fn row_values(&self) -> (r: Result<Vec<String>, String>) {
        let r = vec![
            int_to_string(self.id),
            self.name.clone(),
            description_or_empty(&self.description),
            tags_str(&self.tags),
            pretty_format_duration(self.duration, false),
        ];
        assert(self.value_ok(0, r@[0]@));
        assert(self.value_ok(1, r@[1]@));
        assert(self.value_ok(2, r@[2]@));
        assert(self.value_ok(3, r@[3]@));
        assert(self.value_ok(4, r@[4]@));
        Ok(r)
    }

    fn style_cell(&self, value: String) -> (r: String) {
        value
    }
}

/// A log together with its activity.
#[derive(Clone, Debug)]
pub struct PrintableActivityLog {
    pub log: PrintableLog,
    pub activity: SimpleActivity,
}

impl PrintableActivityLog {
    /// A stored log with its activity.
    pub fn from_activity_and_log(activity: &SimpleActivity, log: &Log) -> (r: Self)
        ensures
            r.log.starts_at == log.starts_at,
            r.log.ends_at == log.ends_at,
            r.activity.id == activity.id,
            r.activity.name == activity.name,
            r.activity.description == activity.description,
            r.activity.tags@ == activity.tags@,
    {
        PrintableActivityLog { log: PrintableLog::from_log(log), activity: activity.copy() }
    }
}

/// The time of day of the instant `t` on the local wall clock.
pub open spec fn local_time_text(t: int, v: Seq<char>) -> bool {
    exists|f: DateTimeFields|
        f.wf() && local_fields_of(t, f) && v == #[trigger] date_time_text(DateTimeRenderMode::TimeOnly, f)
}

fn local_time_string(t: i64) -> (r: String)
    requires
        ts_stored(t as int),
    ensures
        local_time_text(t as int, r@),
{
    let f = local_date_time_of(t).unwrap();
    DateTimeRenderMode::TimeOnly.render_date_time(&f)
}

impl RowPrintable for PrintableActivityLog {
    open spec fn field_spec_list() -> Seq<FieldSpec> {
        seq![
            ("id", "ID", '>'),
            ("name", "Name", '<'),
            ("description", "Description", '<'),
            ("tags", "Tags", '<'),
            ("start", "Start", '^'),
            ("end", "End", '^'),
            ("duration", "Duration", '<'),
        ]
    }

    open spec fn printable(&self) -> bool {
        self.log.as_log().wf()
    }

    open spec fn value_ok(&self, j: int, v: Seq<char>) -> bool {
        if j == 0 {
            v == int_text(self.activity.id as int)
        } else if j == 1 {
            v == self.activity.name@
        } else if j == 2 {
            v == description_text(self.activity.description)
        } else if j == 3 {
            tags_text(self.activity.tags@, v)
        } else if j == 4 {
            local_time_text(self.log.starts_at as int, v)
        } else if j == 5 {
            match self.log.ends_at {
                None => v == "-"@,
                Some(e) => local_time_text(e as int, v),
            }
        } else {
            exists|now: Instant|
                now.wf() && v == short_duration_text(log_duration(self.log.as_log(), now))
        }
    }

    open spec fn reads_clock(&self) -> bool {
        self.log.ends_at is None
    }

    /// An ongoing log is shown in green.
    open spec fn cell_ok(&self, value: Seq<char>, cell: Seq<char>) -> bool {
        if self.log.ends_at is None {
            painted(green_code(), value, cell)
        } else {
            cell == value
        }
    }

    fn field_specs() -> (r: Vec<FieldSpec>) {
        vec![
            ("id", "ID", '>'),
            ("name", "Name", '<'),
            ("description", "Description", '<'),
            ("tags", "Tags", '<'),
            ("start", "Start", '^'),
            ("end", "End", '^'),
            ("duration", "Duration", '<'),
        ]
    }

    fn row_values(&self) -> (r: Result<Vec<String>, String>) {
        let start = local_time_string(self.log.starts_at);
        let end = match self.log.ends_at {
            Some(t) => local_time_string(t),
            None => string_of("-"),
        };
        let duration = match self.log.duration_sec() {
            Some(d) => d,
            None => return Err(clock_error()),
        };
        let r = vec![
            int_to_string(self.activity.id),
            self.activity.name.clone(),
            description_or_empty(&self.activity.description),
            tags_str(&self.activity.tags),
            start,
            end,
            pretty_format_duration(duration, false),
        ];
        assert(self.value_ok(0, r@[0]@));
        assert(self.value_ok(1, r@[1]@));
        assert(self.value_ok(2, r@[2]@));
        assert(self.value_ok(3, r@[3]@));
        assert(self.value_ok(4, r@[4]@));
        assert(self.value_ok(5, r@[5]@));
        assert(self.value_ok(6, r@[6]@));
        Ok(r)
    }

    fn style_cell(&self, value: String) -> (r: String) {
        if self.log.ends_at.is_none() {
            green(value.as_str())
        } else {
            value
        }
    }
}

/// A stored tag.
#[derive(Clone, Debug)]
pub struct Tag {
    pub id: Id,
    pub name: String,
}

/// A tag as it is shown.
#[derive(Clone, Debug)]
pub struct PrintableTag {
    pub id: Id,
    pub name: String,
}

impl PrintableTag {
    /// The shown form of a stored tag.
    pub fn from_tag(tag: &Tag) -> (r: Self)
        ensures
            r.id == tag.id,
            r.name == tag.name,
    {
        PrintableTag { id: tag.id, name: tag.name.clone() }
    }
}

impl RowPrintable for PrintableTag {
    open spec fn field_spec_list() -> Seq<FieldSpec> {
        seq![("id", "ID", '>'), ("name", "Name", '<')]
    }

    open spec fn printable(&self) -> bool {
        true
    }

    open spec fn value_ok(&self, j: int, v: Seq<char>) -> bool {
        if j == 0 {
            v == int_text(self.id as int)
        } else {
            v == self.name@
        }
    }

    open spec fn reads_clock(&self) -> bool {
        false
    }

    open spec fn cell_ok(&self, value: Seq<char>, cell: Seq<char>) -> bool {
        cell == value
    }

    fn field_specs() -> (r: Vec<FieldSpec>) {
        vec![("id", "ID", '>'), ("name", "Name", '<')]
    }

    fn row_values(&self) -> (r: Result<Vec<String>, String>) {
        let r = vec![int_to_string(self.id), self.name.clone()];
        assert(self.value_ok(0, r@[0]@));
        assert(self.value_ok(1, r@[1]@));
        Ok(r)
    }

    fn style_cell(&self, value: String) -> (r: String) {
        value
    }
}

/// An activity with all its logs.
#[derive(Clone, Debug)]
pub struct PrintableActivityWithLogs {
    pub id: Id,
    pub name: String,
    pub description: Option<String>,
    pub ongoing: bool,
    pub tags: Vec<String>,
    pub logs: Vec<PrintableLog>,
}

impl PrintableActivityWithLogs {
    /// A stored activity with its logs.
    pub fn from_activity(activity: &Activity) -> (r: Self)
        ensures
            r.id == activity.id,
            r.name == activity.name,
            r.description == activity.description,
            r.tags@ == activity.tags@,
            r.logs@.len() == activity.logs@.len(),
            forall|i: int|
                0 <= i < r.logs@.len() ==> (#[trigger] r.logs@[i]).starts_at == activity.logs@[i].starts_at
                    && r.logs@[i].ends_at == activity.logs@[i].ends_at,
            r.ongoing == any_open(activity.logs@),
    {
        let mut logs: Vec<PrintableLog> = Vec::new();
        let mut ongoing = false;
        let mut i: usize = 0;
        while i < activity.logs.len()
            invariant
                i <= activity.logs.len(),
                logs@.len() == i,
                forall|k: int|
                    0 <= k < i ==> (#[trigger] logs@[k]).starts_at == activity.logs@[k].starts_at
                        && logs@[k].ends_at == activity.logs@[k].ends_at,
                ongoing == exists|k: int| 0 <= k < i && (#[trigger] activity.logs@[k]).ends_at is None,
            decreases activity.logs.len() - i,
        {
            logs.push(PrintableLog::from_log(&activity.logs[i]));
            if activity.logs[i].ends_at.is_none() {
                ongoing = true;
            }
            i = i + 1;
        }
        PrintableActivityWithLogs {
            id: activity.id,
            name: activity.name.clone(),
            description: clone_opt_string(&activity.description),
            ongoing,
            tags: clone_strings(&activity.tags),
            logs,
        }
    }

    /// The tags in the order the activity holds them, separated by commas.
    pub fn tags_str(&self) -> (r: String)
        ensures
            r@ == join(texts(self.tags@), ","@),
    {
        let mut v: Vec<Vec<char>> = Vec::new();
        let mut i: usize = 0;
        while i < self.tags.len()
            invariant
                i <= self.tags.len(),
                views(v@) == texts(self.tags@).take(i as int),
            decreases self.tags.len() - i,
        {
            let ghost prev = v@;
            let c = chars_of(self.tags[i].as_str());
            v.push(c);
            i = i + 1;
            assert(views(v@) =~= texts(self.tags@).take(i as int)) by {
                assert(views(v@) =~= views(prev).push(c@));
            }
        }
        assert(texts(self.tags@).take(self.tags.len() as int) =~= texts(self.tags@));
        let joined = join_chars(&v, ",");
        string_from_chars(&joined)
    }
}

/// The cells of a log line of a detailed listing: the activity's id, name,
/// description, tags, the local start and end times (`-` while open) and
/// the compact length, the log measured at `now`.
pub fn convert_to_log_line_at(log: &PrintableLog, parent_activity: &PrintableActivityWithLogs, now: Instant) -> (r: Vec<String>)
    requires
        log.as_log().wf(),
        now.wf(),
    ensures
        r@.len() == 7,
        r@[0]@ == int_text(parent_activity.id as int),
        r@[1]@ == parent_activity.name@,
        r@[2]@ == description_text(parent_activity.description),
        r@[3]@ == join(texts(parent_activity.tags@), ","@),
        local_time_text(log.starts_at as int, r@[4]@),
        match log.ends_at {
            Some(e) => local_time_text(e as int, r@[5]@),
            None => r@[5]@ == "-"@,
        },
        r@[6]@ == compact_duration_text(log_duration(log.as_log(), now)),
{
    let duration = log.duration_sec_at(now);
    let start = local_time_string(log.starts_at);
    let end = match log.ends_at {
        Some(e) => local_time_string(e),
        None => String::from_str("-"),
    };
    vec![
        int_to_string(parent_activity.id),
        parent_activity.name.clone(),
        description_or_empty(&parent_activity.description),
        parent_activity.tags_str(),
        start,
        end,
        format_duration(duration),
    ]
}

/// The cells of a log line of a detailed listing, the log measured now;
/// none when the system clock gives no usable instant.
pub fn convert_to_log_line(log: &PrintableLog, parent_activity: &PrintableActivityWithLogs) -> (r: Option<Vec<String>>)
    requires
        log.as_log().wf(),
    ensures
        r matches Some(r) ==> exists|now: Instant|
            now.wf() && r@.len() == 7 && r@[0]@ == int_text(parent_activity.id as int) && r@[1]@
                == parent_activity.name@ && r@[2]@ == description_text(parent_activity.description) && r@[3]@
                == join(texts(parent_activity.tags@), ","@) && local_time_text(log.starts_at as int, r@[4]@) && (match log.ends_at {
                Some(e) => local_time_text(e as int, r@[5]@),
                None => r@[5]@ == "-"@,
            }) && r@[6]@ == compact_duration_text(log_duration(log.as_log(), now)),
{
    match utc_now() {
        Some(now) => Some(convert_to_log_line_at(log, parent_activity, now)),
        None => None,
    }
}

} // verus!

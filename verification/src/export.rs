use vstd::prelude::*;

use crate::boat_data::{
    active_ids, concat_texts, csv_defs_head, csv_intro, csv_logs_head, csv_outro, csv_parts, csv_text, defines,
    definition_line, id_logs, local_end, log_line, shows_log, BoatData,
};
use crate::date::{
    date_char, date_time_text, lemma_date_time_text_chars, lemma_minutes_read_written, local_fields_of, minute_of,
    minutes_read, DateTimeFields,
    DateTimeRenderMode,
};
use crate::edit::{
    data_lines, data_lines_of, is_data_line, line_fields, log_of_line, parse_edited_line, parse_line_head, CsvErrorView,
    EditedLine,
};
use crate::boat_data::lists_keys;
use crate::models::{description_text, tags_text, texts, Id, Log, SimpleActivity};
use crate::text::{
    int_text, is_digit, is_white_space, join, lemma_int_text_ends, lemma_lines_terminated, lemma_parse_int_text,
    lemma_split_char_append_piece, lemma_split_char_append_sep, lemma_split_char_single, lemma_terminated_concat,
    lemma_trim_unchanged, lines, parse_i64, plain_lines, split_char, starts_with_char, terminated, trim,
    trim_start,
};

verus! {

broadcast use vstd::seq_lib::to_multiset_contains;

/// The written form of an end: the date and time, or nothing while open.
pub open spec fn end_text(end: Option<DateTimeFields>) -> Seq<char> {
    match end {
        Some(f) => date_time_text(DateTimeRenderMode::DateAndTime, f),
        None => Seq::empty(),
    }
}

/// A log line without its line feed.
pub open spec fn log_body(act_id: Id, log_id: Id, start: DateTimeFields, end: Option<DateTimeFields>) -> Seq<char> {
    int_text(act_id as int) + ","@ + int_text(log_id as int) + ","@ + date_time_text(
        DateTimeRenderMode::DateAndTime,
        start,
    ) + ","@ + end_text(end)
}

/// What reading back a log line gives: its ids, and the start and end
/// that chrono reads from the written times; an end exactly when one was
/// written.
pub open spec fn read_back(act_id: Id, log_id: Id, start: DateTimeFields, end: Option<DateTimeFields>) -> Result<EditedLine, CsvErrorView> {
    let line = log_body(act_id, log_id, start, end);
    let st = date_time_text(DateTimeRenderMode::DateAndTime, start);
    match minutes_read(st) {
        None => Err(CsvErrorView::StartsAt { field: st, line }),
        Some(s) => match end {
            None => Ok(EditedLine { activity_id: act_id, log_id, starts_at: s, ends_at: None }),
            Some(f) => {
                let et = date_time_text(DateTimeRenderMode::DateAndTime, f);
                match minutes_read(et) {
                    None => Err(CsvErrorView::EndsAt { field: et, line }),
                    Some(e) => Ok(EditedLine { activity_id: act_id, log_id, starts_at: s, ends_at: Some(e) }),
                }
            },
        },
    }
}

/// Wall-clock times that `%Y-%m-%d %H:%M` writes with a four-digit year.
pub open spec fn four_digit_times(start: DateTimeFields, end: Option<DateTimeFields>) -> bool {
    &&& 0 <= start.date.year <= 9999
    &&& (end matches Some(f) ==> 0 <= f.date.year <= 9999)
}

/// The line read back from a log line with those times: its ids, and the
/// times to the minute.
pub open spec fn line_of_times(act_id: Id, log_id: Id, start: DateTimeFields, end: Option<DateTimeFields>) -> EditedLine {
    EditedLine {
        activity_id: act_id,
        log_id,
        starts_at: minute_of(start),
        ends_at: match end {
            Some(f) => Some(minute_of(f)),
            None => None,
        },
    }
}

/// A data line reads back as the log `log` of the activity `act_id`: it was
/// written with the local wall clock of the log's start and end, and reads
/// back as `read_back` says; with four-digit years, as the log's ids and
/// those times to the minute.
pub open spec fn reads_back_as(line: Seq<char>, act_id: Id, log: Log) -> bool {
    exists|start: DateTimeFields, end: Option<DateTimeFields>|
        start.wf() && start.date.wf() && local_fields_of(log.starts_at as int, start) && local_end(log, end)
            && parse_edited_line(line)
            == read_back(act_id, log.id, start, end) && (four_digit_times(start, end) ==> parse_edited_line(line)
            == Ok::<EditedLine, CsvErrorView>(line_of_times(act_id, log.id, start, end)))
}

/// Times written with four-digit years read back to the minute.
pub proof fn lemma_read_back_times(act_id: Id, log_id: Id, start: DateTimeFields, end: Option<DateTimeFields>)
    requires
        start.wf(),
        start.date.wf(),
        end matches Some(f) ==> f.wf() && f.date.wf(),
        four_digit_times(start, end),
    ensures
        read_back(act_id, log_id, start, end) == Ok::<EditedLine, CsvErrorView>(line_of_times(act_id, log_id, start, end)),
{
    lemma_minutes_read_written(date_time_text(DateTimeRenderMode::DateAndTime, start), start);
    if let Some(f) = end {
        lemma_minutes_read_written(date_time_text(DateTimeRenderMode::DateAndTime, f), f);
    }
}

/// A definition line without its line feed.
pub open spec fn definition_body(a: SimpleActivity, tags: Seq<char>) -> Seq<char> {
    "# | "@ + int_text(a.id as int) + " | "@ + a.name@ + " | "@ + description_text(a.description) + " | "@ + tags
        + " |"@
}

/// The comment lines that open an export with instructions.
pub open spec fn intro_lines() -> Seq<Seq<char>> {
    seq![
        "# This is a CSV export of your activities and logs."@,
        "# Lines starting with '#' are comments and should not be modified."@,
        "# Activity definitions are included for reference but are not meant to be edited."@,
        "# You may only edit activity logs here."@,
        "#"@,
    ]
}

/// The head lines of the activity definitions.
pub open spec fn defs_head_lines() -> Seq<Seq<char>> {
    seq!["# Activity definitions:"@, "# | ID | Name | Description | Tags |"@, "# | -- | ---- | ----------- | ---- |"@]
}

/// The instruction lines before the logs.
pub open spec fn outro_lines() -> Seq<Seq<char>> {
    seq![
        "# Below are your activity logs. You can edit the start and end times here."@,
        "# If you want to mark the latest activity as ongoing, simply remove the end time (leave it blank) for that log."@,
        "# Please keep the activity_id and log_id unchanged to avoid breaking the data."@,
        "#"@,
    ]
}

/// The head lines of the log section.
pub open spec fn logs_head_lines() -> Seq<Seq<char>> {
    seq!["# Logs (activity_id,log_id,starts_at,ends_at):"@, "# ===== EDIT DATA BELOW ====="@]
}

/// A line that is a comment: it starts with `#` and holds no line break.
pub open spec fn comment_line(l: Seq<char>) -> bool {
    &&& l.len() > 0
    &&& l[0] == '#'
    &&& forall|j: int| 0 <= j < l.len() ==> #[trigger] l[j] != '\n'
    &&& l.last() != '\r'
}

/// No text of the activity holds a line feed.
pub open spec fn single_line_texts(a: SimpleActivity) -> bool {
    &&& forall|j: int| 0 <= j < a.name@.len() ==> #[trigger] a.name@[j] != '\n'
    &&& forall|j: int| 0 <= j < description_text(a.description).len() ==> #[trigger] description_text(a.description)[j] != '\n'
    &&& forall|k: int, j: int|
        0 <= k < a.tags@.len() && 0 <= j < a.tags@[k]@.len() ==> #[trigger] a.tags@[k]@[j] != '\n'
}

proof fn lemma_literal_lines()
    ensures
        csv_intro() == terminated(intro_lines()),
        csv_defs_head() == terminated(defs_head_lines()),
        csv_outro() == terminated(outro_lines()),
        csv_logs_head() == terminated(logs_head_lines()),
        "\n\n"@ == terminated(seq![Seq::<char>::empty(), Seq::<char>::empty()]),
        forall|i: int| 0 <= i < intro_lines().len() ==> comment_line(#[trigger] intro_lines()[i]),
        forall|i: int| 0 <= i < defs_head_lines().len() ==> comment_line(#[trigger] defs_head_lines()[i]),
        forall|i: int| 0 <= i < outro_lines().len() ==> comment_line(#[trigger] outro_lines()[i]),
        forall|i: int| 0 <= i < logs_head_lines().len() ==> comment_line(#[trigger] logs_head_lines()[i]),
{
    reveal_strlit("# This is a CSV export of your activities and logs.\n");
    reveal_strlit("# Lines starting with '#' are comments and should not be modified.\n");
    reveal_strlit("# Activity definitions are included for reference but are not meant to be edited.\n");
    reveal_strlit("# You may only edit activity logs here.\n#\n");
    reveal_strlit("# This is a CSV export of your activities and logs.");
    reveal_strlit("# Lines starting with '#' are comments and should not be modified.");
    reveal_strlit("# Activity definitions are included for reference but are not meant to be edited.");
    reveal_strlit("# You may only edit activity logs here.");
    reveal_strlit("#");
    reveal_strlit("# Activity definitions:\n");
    reveal_strlit("# | ID | Name | Description | Tags |\n");
    reveal_strlit("# | -- | ---- | ----------- | ---- |\n");
    reveal_strlit("# Activity definitions:");
    reveal_strlit("# | ID | Name | Description | Tags |");
    reveal_strlit("# | -- | ---- | ----------- | ---- |");
    reveal_strlit("# Below are your activity logs. You can edit the start and end times here.\n");
    reveal_strlit(
        "# If you want to mark the latest activity as ongoing, simply remove the end time (leave it blank) for that log.\n",
    );
    reveal_strlit("# Please keep the activity_id and log_id unchanged to avoid breaking the data.\n#\n");
    reveal_strlit("# Below are your activity logs. You can edit the start and end times here.");
    reveal_strlit(
        "# If you want to mark the latest activity as ongoing, simply remove the end time (leave it blank) for that log.",
    );
    reveal_strlit("# Please keep the activity_id and log_id unchanged to avoid breaking the data.");
    reveal_strlit("# Logs (activity_id,log_id,starts_at,ends_at):\n");
    reveal_strlit("# ===== EDIT DATA BELOW =====\n");
    reveal_strlit("# Logs (activity_id,log_id,starts_at,ends_at):");
    reveal_strlit("# ===== EDIT DATA BELOW =====");
    reveal_strlit("\n\n");
    reveal_with_fuel(terminated, 6);
    assert(csv_intro() =~= terminated(intro_lines()));
    assert(csv_defs_head() =~= terminated(defs_head_lines()));
    assert(csv_outro() =~= terminated(outro_lines()));
    assert(csv_logs_head() =~= terminated(logs_head_lines()));
    assert("\n\n"@ =~= terminated(seq![Seq::<char>::empty(), Seq::<char>::empty()]));
}

proof fn lemma_concat_terminated(bodies: Seq<Seq<char>>, ls: Seq<Seq<char>>)
    requires
        ls.len() == bodies.len(),
        forall|i: int| 0 <= i < ls.len() ==> #[trigger] ls[i] == bodies[i] + "\n"@,
    ensures
        concat_texts(ls) == terminated(bodies),
    decreases ls.len(),
{
    reveal_strlit("\n");
    if ls.len() > 0 {
        lemma_concat_terminated(bodies.drop_last(), ls.drop_last());
        assert(ls.last() == bodies.last() + "\n"@);
        assert(concat_texts(ls) =~= terminated(bodies));
    }
}

proof fn lemma_data_lines_concat(a: Seq<Seq<char>>, b: Seq<Seq<char>>)
    ensures
        data_lines_of(a + b) == data_lines_of(a) + data_lines_of(b),
    decreases b.len(),
{
    if b.len() == 0 {
        assert(a + b =~= a);
        assert(data_lines_of(a) + data_lines_of(b) =~= data_lines_of(a));
    } else {
        lemma_data_lines_concat(a, b.drop_last());
        assert((a + b).drop_last() =~= a + b.drop_last());
        assert((a + b).last() == b.last());
        if is_data_line(b.last()) {
            assert(data_lines_of(a + b) =~= data_lines_of(a) + data_lines_of(b));
        } else {
            assert(data_lines_of(a + b) =~= data_lines_of(a) + data_lines_of(b));
        }
    }
}

proof fn lemma_no_data_lines(ls: Seq<Seq<char>>)
    requires
        forall|i: int| 0 <= i < ls.len() ==> !is_data_line(#[trigger] ls[i]),
    ensures
        data_lines_of(ls) == Seq::<Seq<char>>::empty(),
    decreases ls.len(),
{
    if ls.len() > 0 {
        assert(!is_data_line(ls[ls.len() - 1]));
        lemma_no_data_lines(ls.drop_last());
    }
}

proof fn lemma_all_data_lines(ls: Seq<Seq<char>>)
    requires
        forall|i: int| 0 <= i < ls.len() ==> is_data_line(#[trigger] ls[i]),
    ensures
        data_lines_of(ls) == ls,
    decreases ls.len(),
{
    if ls.len() > 0 {
        assert(is_data_line(ls[ls.len() - 1]));
        lemma_all_data_lines(ls.drop_last());
        assert(ls.drop_last().push(ls.last()) =~= ls);
    }
}

proof fn lemma_comment_not_data(l: Seq<char>)
    requires
        (l.len() > 0 && l[0] == '#') || l.len() == 0,
    ensures
        !is_data_line(l),
{
    if l.len() > 0 {
        assert(!is_white_space('#'));
        assert(trim_start(l) == l);
    }
}

proof fn lemma_join_single_line(parts: Seq<Seq<char>>, sep: Seq<char>)
    requires
        forall|j: int| 0 <= j < sep.len() ==> #[trigger] sep[j] != '\n',
        forall|k: int, j: int| 0 <= k < parts.len() && 0 <= j < parts[k].len() ==> #[trigger] parts[k][j] != '\n',
    ensures
        forall|j: int| 0 <= j < join(parts, sep).len() ==> #[trigger] join(parts, sep)[j] != '\n',
    decreases parts.len(),
{
    if parts.len() > 1 {
        let pre = parts.drop_last();
        assert forall|k: int, j: int| 0 <= k < pre.len() && 0 <= j < pre[k].len() implies #[trigger] pre[k][j] != '\n' by {
            assert(pre[k] == parts[k]);
        }
        lemma_join_single_line(pre, sep);
        let a = join(pre, sep);
        let l = parts.last();
        assert(join(parts, sep) == a + sep + l);
        assert forall|j: int| 0 <= j < join(parts, sep).len() implies #[trigger] join(parts, sep)[j] != '\n' by {
            if j < a.len() {
                assert(join(parts, sep)[j] == a[j]);
            } else if j < a.len() + sep.len() {
                assert(join(parts, sep)[j] == sep[j - a.len()]);
            } else {
                assert(join(parts, sep)[j] == l[j - a.len() - sep.len()]);
                assert(l == parts[parts.len() - 1]);
            }
        }
    } else if parts.len() == 1 {
        assert forall|j: int| 0 <= j < join(parts, sep).len() implies #[trigger] join(parts, sep)[j] != '\n' by {
            assert(join(parts, sep)[j] == parts[0][j]);
        }
    }
}

proof fn lemma_tags_single_line(a: SimpleActivity, t: Seq<char>)
    requires
        single_line_texts(a),
        tags_text(a.tags@, t),
    ensures
        forall|j: int| 0 <= j < t.len() ==> #[trigger] t[j] != '\n',
{
    let sorted = choose|sorted: Seq<Seq<char>>|
        crate::sorting::is_sorted_text(sorted) && sorted.to_multiset() == texts(a.tags@).to_multiset() && t == join(
            sorted,
            ","@,
        );
    reveal_strlit(",");
    assert forall|k: int, j: int| 0 <= k < sorted.len() && 0 <= j < sorted[k].len() implies #[trigger] sorted[k][j]
        != '\n' by {
        assert(sorted.contains(sorted[k]));
        assert(sorted.to_multiset().count(sorted[k]) > 0);
        assert(texts(a.tags@).contains(sorted[k]));
        let q = choose|q: int| 0 <= q < texts(a.tags@).len() && texts(a.tags@)[q] == sorted[k];
        assert(texts(a.tags@)[q] == a.tags@[q]@);
        assert(a.tags@[q]@[j] != '\n');
    }
    lemma_join_single_line(sorted, ","@);
}

proof fn lemma_definition_line(a: SimpleActivity, line: Seq<char>)
    requires
        single_line_texts(a),
        defines(line, a),
    ensures
        exists|b: Seq<char>| comment_line(b) && line == b + "\n"@,
{
    let t = choose|t: Seq<char>| tags_text(a.tags@, t) && line == definition_line(a, t);
    lemma_tags_single_line(a, t);
    lemma_int_text_ends(a.id as int);
    reveal_strlit("# | ");
    reveal_strlit(" | ");
    reveal_strlit(" |");
    reveal_strlit(" |\n");
    reveal_strlit("\n");
    let b = definition_body(a, t);
    assert(line =~= b + "\n"@);
    let i1 = int_text(a.id as int);
    let n = a.name@;
    let d = description_text(a.description);
    assert forall|j: int| 0 <= j < b.len() implies #[trigger] b[j] != '\n' by {
        let o1 = 4int;
        let o2 = o1 + i1.len();
        let o3 = o2 + 3;
        let o4 = o3 + n.len();
        let o5 = o4 + 3;
        let o6 = o5 + d.len();
        let o7 = o6 + 3;
        let o8 = o7 + t.len();
        if j < o1 {
        } else if j < o2 {
            assert(b[j] == i1[j - o1]);
        } else if j < o3 {
        } else if j < o4 {
            assert(b[j] == n[j - o3]);
        } else if j < o5 {
        } else if j < o6 {
            assert(b[j] == d[j - o5]);
        } else if j < o7 {
        } else if j < o8 {
            assert(b[j] == t[j - o7]);
        } else {
        }
    }
    assert(comment_line(b));
}

proof fn lemma_log_body_fields(act_id: Id, log_id: Id, start: DateTimeFields, end: Option<DateTimeFields>)
    ensures
        line_fields(log_body(act_id, log_id, start, end)) == seq![
            int_text(act_id as int),
            int_text(log_id as int),
            date_time_text(DateTimeRenderMode::DateAndTime, start),
            end_text(end),
        ],
        is_data_line(log_body(act_id, log_id, start, end)),
        forall|j: int|
            0 <= j < log_body(act_id, log_id, start, end).len() ==> #[trigger] log_body(act_id, log_id, start, end)[j]
                != '\n',
        log_body(act_id, log_id, start, end).last() != '\r',
{
    let a = int_text(act_id as int);
    let l = int_text(log_id as int);
    let s = date_time_text(DateTimeRenderMode::DateAndTime, start);
    let e = end_text(end);
    lemma_int_text_ends(act_id as int);
    lemma_int_text_ends(log_id as int);
    lemma_date_time_text_chars(start);
    if let Some(f) = end {
        lemma_date_time_text_chars(f);
    }
    reveal_strlit(",");
    let body = log_body(act_id, log_id, start, end);
    assert(body =~= ((((a.push(',') + l).push(',')) + s).push(',')) + e);
    assert forall|j: int| 0 <= j < a.len() implies a[j] != ',' by {
        assert(is_digit(a[j]) || a[j] == '-');
    }
    assert forall|j: int| 0 <= j < l.len() implies l[j] != ',' by {
        assert(is_digit(l[j]) || l[j] == '-');
    }
    assert forall|j: int| 0 <= j < s.len() implies s[j] != ',' by {
        assert(date_char(s[j]) || s[j] == ' ' || s[j] == ':');
    }
    assert forall|j: int| 0 <= j < e.len() implies e[j] != ',' by {
        if let Some(f) = end {
            assert(date_char(e[j]) || e[j] == ' ' || e[j] == ':');
        }
    }
    lemma_split_char_single(a, ',');
    lemma_split_char_append_sep(a, ',');
    lemma_split_char_append_piece(a.push(','), l, ',');
    lemma_split_char_append_sep(a.push(',') + l, ',');
    lemma_split_char_append_piece((a.push(',') + l).push(','), s, ',');
    lemma_split_char_append_sep((a.push(',') + l).push(',') + s, ',');
    lemma_split_char_append_piece(((a.push(',') + l).push(',') + s).push(','), e, ',');
    let p = split_char(body, ',');
    assert(Seq::<char>::empty() + l =~= l);
    assert(Seq::<char>::empty() + s =~= s);
    assert(Seq::<char>::empty() + e =~= e);
    assert(p =~= seq![a, l, s, e]);
    lemma_trim_unchanged(a);
    lemma_trim_unchanged(l);
    lemma_trim_unchanged(s);
    lemma_trim_unchanged(e);
    assert(line_fields(body) =~= seq![a, l, s, e]);
    assert(!is_white_space(a[0]));
    assert(trim_start(body) == body);
    assert(body[0] == a[0]);
    assert forall|j: int| 0 <= j < body.len() implies #[trigger] body[j] != '\n' by {
        let o2 = a.len() + 1;
        let o3 = o2 + l.len() + 1;
        let o4 = o3 + s.len() + 1;
        if j < a.len() {
            assert(body[j] == a[j]);
            assert(is_digit(a[j]) || a[j] == '-');
        } else if j == a.len() {
        } else if j < o2 + l.len() {
            assert(body[j] == l[j - o2]);
            assert(is_digit(l[j - o2]) || l[j - o2] == '-');
        } else if j == o2 + l.len() {
        } else if j < o3 + s.len() {
            assert(body[j] == s[j - o3]);
            assert(date_char(s[j - o3]) || s[j - o3] == ' ' || s[j - o3] == ':');
        } else if j == o3 + s.len() {
        } else {
            assert(body[j] == e[j - o4]);
            assert(date_char(e[j - o4]) || e[j - o4] == ' ' || e[j - o4] == ':');
        }
    }
    if e.len() > 0 {
        assert(body.last() == e.last());
    } else {
        assert(body.last() == ',');
    }
}

/// A log line read back gives its ids, an end exactly when one was written,
/// and the times chrono reads from the written local times.
pub proof fn lemma_log_line_reads_back(act_id: Id, log_id: Id, start: DateTimeFields, end: Option<DateTimeFields>)
    ensures
        parse_edited_line(log_body(act_id, log_id, start, end)) == read_back(act_id, log_id, start, end),
        log_line(act_id, log_id, start, end) == log_body(act_id, log_id, start, end) + "\n"@,
{
    lemma_log_body_fields(act_id, log_id, start, end);
    lemma_parse_int_text(act_id);
    lemma_parse_int_text(log_id);
    if let Some(f) = end {
        lemma_date_time_text_chars(f);
    }
    reveal_strlit(",");
    reveal_strlit("\n");
    assert(log_line(act_id, log_id, start, end) =~= log_body(act_id, log_id, start, end) + "\n"@);
}

proof fn lemma_def_bodies(data: BoatData, ids: Seq<Id>, def_lines: Seq<Seq<char>>) -> (def_bodies: Seq<Seq<char>>)
    requires
        def_lines.len() == active_ids(data, ids).len(),
        lists_keys(ids, data.activities@),
        forall|i: int| 0 <= i < def_lines.len() ==> #[trigger] defines(def_lines[i], data.activities@[active_ids(data, ids)[i]]),
        forall|id: Id| #[trigger] data.activities@.contains_key(id) ==> single_line_texts(data.activities@[id]),
    ensures
        def_bodies.len() == def_lines.len(),
        forall|i: int| 0 <= i < def_lines.len() ==> comment_line(#[trigger] def_bodies[i]) && def_lines[i] == def_bodies[i] + "\n"@,
{
    let active = active_ids(data, ids);
    let def_bodies = Seq::new(def_lines.len(), |i: int| choose|b: Seq<char>| comment_line(b) && def_lines[i] == b + "\n"@);
    lemma_active_ids_listed(data, ids);
    assert forall|i: int| 0 <= i < def_lines.len() implies comment_line(#[trigger] def_bodies[i]) && def_lines[i]
        == def_bodies[i] + "\n"@ by {
        assert(defines(def_lines[i], data.activities@[active[i]]));
        assert(ids.contains(active[i]));
        assert(data.activities@.contains_key(active[i]));
        lemma_definition_line(data.activities@[active[i]], def_lines[i]);
    }
    def_bodies
}

/// The start and end written on each log line.
proof fn lemma_log_bodies(rows: Seq<(Id, Log)>, p: Seq<usize>, log_lines: Seq<Seq<char>>) -> (picked: Seq<(DateTimeFields, Option<DateTimeFields>)>)
    requires
        forall|j: int| 0 <= j < log_lines.len() ==> 0 <= #[trigger] p[j] < rows.len(),
        forall|j: int| 0 <= j < log_lines.len() ==> #[trigger] shows_log(log_lines[j], rows[p[j] as int].0, rows[p[j] as int].1),
    ensures
        picked.len() == log_lines.len(),
        forall|j: int|
            0 <= j < log_lines.len() ==> shows_with(log_lines[j], rows[p[j] as int].0, rows[p[j] as int].1, #[trigger] picked[j])
                && log_lines[j] == log_body(rows[p[j] as int].0, rows[p[j] as int].1.id, picked[j].0, picked[j].1) + "\n"@
                && is_data_line(log_body(rows[p[j] as int].0, rows[p[j] as int].1.id, picked[j].0, picked[j].1))
                && comment_free(log_body(rows[p[j] as int].0, rows[p[j] as int].1.id, picked[j].0, picked[j].1)),
{
    let picked = Seq::new(
        log_lines.len(),
        |j: int| choose|se: (DateTimeFields, Option<DateTimeFields>)| shows_with(log_lines[j], rows[p[j] as int].0, rows[p[j] as int].1, se),
    );
    assert forall|j: int| 0 <= j < log_lines.len() implies shows_with(log_lines[j], rows[p[j] as int].0, rows[p[j] as int].1, #[trigger] picked[j])
        && log_lines[j] == log_body(rows[p[j] as int].0, rows[p[j] as int].1.id, picked[j].0, picked[j].1) + "\n"@
        && is_data_line(log_body(rows[p[j] as int].0, rows[p[j] as int].1.id, picked[j].0, picked[j].1))
        && comment_free(log_body(rows[p[j] as int].0, rows[p[j] as int].1.id, picked[j].0, picked[j].1)) by {
        assert(shows_log(log_lines[j], rows[p[j] as int].0, rows[p[j] as int].1));
        let (st, en) = choose|start: DateTimeFields, end: Option<DateTimeFields>|
            start.wf() && start.date.wf() && local_fields_of(rows[p[j] as int].1.starts_at as int, start) && local_end(
                rows[p[j] as int].1,
                end,
            ) && log_lines[j] == log_line(rows[p[j] as int].0, rows[p[j] as int].1.id, start, end);
        assert(shows_with(log_lines[j], rows[p[j] as int].0, rows[p[j] as int].1, (st, en)));
        lemma_log_line_reads_back(rows[p[j] as int].0, rows[p[j] as int].1.id, picked[j].0, picked[j].1);
        lemma_log_body_fields(rows[p[j] as int].0, rows[p[j] as int].1.id, picked[j].0, picked[j].1);
    }
    picked
}

/// `line` shows the log with the times `se`, as `shows_log` says.
pub open spec fn shows_with(line: Seq<char>, act_id: Id, log: Log, se: (DateTimeFields, Option<DateTimeFields>)) -> bool {
    se.0.wf() && se.0.date.wf() && local_fields_of(log.starts_at as int, se.0) && local_end(log, se.1) && line == log_line(
        act_id,
        log.id,
        se.0,
        se.1,
    )
}

/// The data lines of an export built from comment lines and log lines are
/// the log lines.
proof fn lemma_csv_data_lines(
    instr: bool,
    defs: bool,
    def_bodies: Seq<Seq<char>>,
    def_lines: Seq<Seq<char>>,
    log_bodies: Seq<Seq<char>>,
    log_lines: Seq<Seq<char>>,
)
    requires
        def_bodies.len() == def_lines.len(),
        forall|i: int| 0 <= i < def_lines.len() ==> comment_line(#[trigger] def_bodies[i]) && def_lines[i] == def_bodies[i] + "\n"@,
        log_bodies.len() == log_lines.len(),
        forall|j: int|
            #![trigger log_bodies[j]]
            0 <= j < log_lines.len() ==> log_lines[j] == log_bodies[j] + "\n"@ && is_data_line(log_bodies[j])
                && comment_free(log_bodies[j]),
    ensures
        data_lines(csv_text(instr, defs, def_lines, log_lines)) == log_bodies,
{
    lemma_concat_terminated(def_bodies, def_lines);
    lemma_concat_terminated(log_bodies, log_lines);
    lemma_literal_lines();
    let empties = seq![Seq::<char>::empty(), Seq::<char>::empty()];
    let intro = if instr { intro_lines() } else { Seq::<Seq<char>>::empty() };
    let defs_part = if defs { defs_head_lines() + def_bodies + empties } else { Seq::<Seq<char>>::empty() };
    let outro = if instr { outro_lines() } else { Seq::<Seq<char>>::empty() };
    let comments = intro + defs_part + outro + logs_head_lines();
    let all = comments + log_bodies;
    lemma_terminated_concat(comments, log_bodies);
    lemma_terminated_concat(intro + defs_part + outro, logs_head_lines());
    lemma_terminated_concat(intro + defs_part, outro);
    lemma_terminated_concat(intro, defs_part);
    lemma_terminated_concat(defs_head_lines() + def_bodies, empties);
    lemma_terminated_concat(defs_head_lines(), def_bodies);
    assert(terminated(Seq::<Seq<char>>::empty()) =~= Seq::<char>::empty());
    let content = csv_text(instr, defs, def_lines, log_lines);
    assert(content =~= terminated(all));
    assert forall|i: int| 0 <= i < comments.len() implies !is_data_line(#[trigger] comments[i]) && comment_free(
        comments[i],
    ) by {
        let c = comments[i];
        if i < intro.len() {
            assert(c == intro[i]);
            assert(comment_line(intro_lines()[i]));
        } else if i < intro.len() + defs_part.len() {
            let k = i - intro.len();
            assert(c == defs_part[k]);
            if k < 3 {
                assert(comment_line(defs_head_lines()[k]));
            } else if k < 3 + def_bodies.len() {
                assert(c == def_bodies[k - 3]);
            } else {
                assert(c == Seq::<char>::empty());
            }
        } else if i < intro.len() + defs_part.len() + outro.len() {
            assert(c == outro[i - intro.len() - defs_part.len()]);
            assert(comment_line(outro_lines()[i - intro.len() - defs_part.len()]));
        } else {
            assert(c == logs_head_lines()[i - intro.len() - defs_part.len() - outro.len()]);
            assert(comment_line(logs_head_lines()[i - intro.len() - defs_part.len() - outro.len()]));
        }
        lemma_comment_not_data(c);
    }
    assert(plain_lines(all)) by {
        assert forall|i: int| 0 <= i < all.len() implies (forall|j: int| 0 <= j < all[i].len() ==> (#[trigger] all[i][j]) != '\n')
            && !(all[i].len() > 0 && all[i].last() == '\r') by {
            if i < comments.len() {
                assert(all[i] == comments[i]);
                assert(comment_free(comments[i]));
            } else {
                assert(all[i] == log_bodies[i - comments.len()]);
                assert(comment_free(log_bodies[i - comments.len()]));
            }
        }
    }
    lemma_lines_terminated(all);
    lemma_data_lines_concat(comments, log_bodies);
    lemma_no_data_lines(comments);
    lemma_all_data_lines(log_bodies);
    assert(data_lines_of(comments) + log_bodies =~= log_bodies);
}

/// An export read back: its data lines are its log lines without their line
/// feeds, in order, whether or not instructions and definitions were
/// written, when the activities' texts hold no line feed. Each was written
/// with the local wall clock of its log's start and end, and reads back as
/// its log's ids and, with four-digit years, those times to the minute.
pub proof fn lemma_export_reads_back(
    data: BoatData,
    instr: bool,
    defs: bool,
    ids: Seq<Id>,
    def_lines: Seq<Seq<char>>,
    p: Seq<usize>,
    log_lines: Seq<Seq<char>>,
)
    requires
        csv_parts(data, ids, def_lines, p, log_lines),
        forall|id: Id| #[trigger] data.activities@.contains_key(id) ==> single_line_texts(data.activities@[id]),
    ensures
        data_lines(csv_text(instr, defs, def_lines, log_lines)).len() == log_lines.len(),
        forall|j: int|
            0 <= j < log_lines.len() ==> reads_back_as(
                #[trigger] data_lines(csv_text(instr, defs, def_lines, log_lines))[j],
                id_logs(data, active_ids(data, ids))[p[j] as int].0,
                id_logs(data, active_ids(data, ids))[p[j] as int].1,
            ),
{
    let rows = id_logs(data, active_ids(data, ids));
    let def_bodies = lemma_def_bodies(data, ids, def_lines);
    let picked = lemma_log_bodies(rows, p, log_lines);
    let log_bodies = Seq::new(
        log_lines.len(),
        |j: int| log_body(rows[p[j] as int].0, rows[p[j] as int].1.id, picked[j].0, picked[j].1),
    );
    assert forall|j: int| 0 <= j < log_lines.len() implies log_lines[j] == #[trigger] log_bodies[j] + "\n"@
        && is_data_line(log_bodies[j]) && comment_free(log_bodies[j]) by {
        assert(shows_with(log_lines[j], rows[p[j] as int].0, rows[p[j] as int].1, picked[j]));
    }
    lemma_csv_data_lines(instr, defs, def_bodies, def_lines, log_bodies, log_lines);
    let content = csv_text(instr, defs, def_lines, log_lines);
    assert forall|j: int| 0 <= j < log_lines.len() implies reads_back_as(
        #[trigger] data_lines(content)[j],
        rows[p[j] as int].0,
        rows[p[j] as int].1,
    ) by {
        let (act, log) = rows[p[j] as int];
        let (st, en) = picked[j];
        assert(shows_with(log_lines[j], act, log, picked[j]));
        lemma_log_line_reads_back(act, log.id, st, en);
        assert(data_lines(content)[j] == log_bodies[j]);
        assert(parse_edited_line(data_lines(content)[j]) == read_back(act, log.id, st, en));
        if four_digit_times(st, en) {
            lemma_read_back_times(act, log.id, st, en);
        }
    }
}

/// `read` gives back the stored log `stored` of the activity `act_id`: the
/// same ids, an end exactly when the stored log has one, and, when the
/// stored times' local wall clocks have four-digit years, starts and ends
/// at the same local wall-clock minutes.
pub open spec fn keeps_log(act_id: Id, stored: Log, read: Log) -> bool {
    &&& read.id == stored.id
    &&& read.activity_id == act_id
    &&& (read.ends_at is Some <==> stored.ends_at is Some)
    &&& exists|start: DateTimeFields, end: Option<DateTimeFields>|
        start.wf() && local_fields_of(stored.starts_at as int, start) && local_end(stored, end) && (four_digit_times(
            start,
            end,
        ) ==> local_fields_of(read.starts_at as int, minute_of(start)) && match (read.ends_at, end) {
            (Some(t), Some(f)) => local_fields_of(t as int, minute_of(f)),
            _ => true,
        })
}

/// Reading back an export that was saved unchanged gives back every
/// exported log, in the export's order, as `keeps_log` says, when the
/// activities' texts hold no line feed.
pub proof fn lemma_unchanged_export_keeps_logs(
    data: BoatData,
    instr: bool,
    defs: bool,
    ids: Seq<Id>,
    def_lines: Seq<Seq<char>>,
    p: Seq<usize>,
    log_lines: Seq<Seq<char>>,
    logs: Seq<Log>,
)
    requires
        csv_parts(data, ids, def_lines, p, log_lines),
        forall|id: Id| #[trigger] data.activities@.contains_key(id) ==> single_line_texts(data.activities@[id]),
        logs.len() == data_lines(csv_text(instr, defs, def_lines, log_lines)).len(),
        forall|j: int|
            0 <= j < logs.len() ==> log_of_line(data_lines(csv_text(instr, defs, def_lines, log_lines))[j], #[trigger] logs[j]),
    ensures
        logs.len() == log_lines.len(),
        forall|j: int|
            0 <= j < logs.len() ==> keeps_log(
                id_logs(data, active_ids(data, ids))[p[j] as int].0,
                id_logs(data, active_ids(data, ids))[p[j] as int].1,
                #[trigger] logs[j],
            ),
{
    lemma_export_reads_back(data, instr, defs, ids, def_lines, p, log_lines);
    let rows = id_logs(data, active_ids(data, ids));
    let content = csv_text(instr, defs, def_lines, log_lines);
    assert forall|j: int| 0 <= j < logs.len() implies keeps_log(rows[p[j] as int].0, rows[p[j] as int].1, #[trigger] logs[j]) by {
        let (act, stored) = rows[p[j] as int];
        let line = data_lines(content)[j];
        assert(reads_back_as(line, act, stored));
        let (st, en) = choose|start: DateTimeFields, end: Option<DateTimeFields>|
            start.wf() && start.date.wf() && local_fields_of(stored.starts_at as int, start) && local_end(stored, end)
                && parse_edited_line(line) == read_back(act, stored.id, start, end) && (four_digit_times(start, end)
                ==> parse_edited_line(line) == Ok::<EditedLine, CsvErrorView>(line_of_times(act, stored.id, start, end)));
        assert(log_of_line(line, logs[j]));
        if four_digit_times(st, en) {
            assert(parse_edited_line(line) == Ok::<EditedLine, CsvErrorView>(line_of_times(act, stored.id, st, en)));
        }
    }
}

/// The ids with logs are among the listed ids.
proof fn lemma_active_ids_listed(data: BoatData, ids: Seq<Id>)
    ensures
        forall|i: int| 0 <= i < active_ids(data, ids).len() ==> ids.contains(#[trigger] active_ids(data, ids)[i]),
    decreases ids.len(),
{
    if ids.len() > 0 {
        lemma_active_ids_listed(data, ids.drop_last());
        let pre = ids.drop_last();
        assert forall|i: int| 0 <= i < active_ids(data, ids).len() implies ids.contains(#[trigger] active_ids(data, ids)[i]) by {
            if i < active_ids(data, pre).len() {
                assert(active_ids(data, ids)[i] == active_ids(data, pre)[i]);
                assert(pre.contains(active_ids(data, pre)[i]));
                let k = choose|k: int| 0 <= k < pre.len() && pre[k] == active_ids(data, pre)[i];
                assert(ids[k] == pre[k]);
            } else {
                assert(active_ids(data, ids)[i] == ids.last());
                assert(ids[ids.len() - 1] == ids.last());
            }
        }
    }
}

/// A line holds no line feed and does not end with a carriage return.
pub open spec fn comment_free(l: Seq<char>) -> bool {
    (forall|j: int| 0 <= j < l.len() ==> #[trigger] l[j] != '\n') && !(l.len() > 0 && l.last() == '\r')
}

} // verus!

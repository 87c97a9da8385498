use vstd::prelude::*;

use crate::date::clock_error_text;
use crate::models::{is_alignment, FieldSpec, RowPrintable};
use crate::paint::{painted, underline, underline_code};
use crate::text::{
    chars_eq_ignore_ascii_case, chars_of, eq_ignore_ascii_case, join, join_chars, push_str,
    string_from_chars, views,
};

verus! {

/// The first key that equals `key` up to ASCII case.
pub open spec fn field_position(keys: Seq<Seq<char>>, key: Seq<char>) -> Option<int>
    decreases keys.len(),
{
    if keys.len() == 0 {
        None
    } else if eq_ignore_ascii_case(keys[0], key) {
        Some(0)
    } else {
        match field_position(keys.drop_first(), key) {
            Some(i) => Some(i + 1),
            None => None,
        }
    }
}

/// The keys of column specifications.
pub open spec fn spec_keys(specs: Seq<FieldSpec>) -> Seq<Seq<char>> {
    specs.map_values(|f: FieldSpec| f.0@)
}

/// The message for a key that selects no column.
pub open spec fn unknown_field_text(key: Seq<char>, keys: Seq<Seq<char>>) -> Seq<char> {
    "unknown field '"@ + key + "' (available: "@ + join(keys, ", "@) + ")"@
}

/// The columns that the keys select, in the keys' order; the first key that
/// selects none is refused.
pub open spec fn select_fields(keys: Seq<Seq<char>>, wanted: Seq<Seq<char>>) -> Result<Seq<int>, Seq<char>>
    decreases wanted.len(),
{
    if wanted.len() == 0 {
        Ok(Seq::<int>::empty())
    } else {
        match select_fields(keys, wanted.drop_last()) {
            Err(e) => Err(e),
            Ok(v) => match field_position(keys, wanted.last()) {
                Some(i) => Ok(v.push(i)),
                None => Err(unknown_field_text(wanted.last(), keys)),
            },
        }
    }
}

/// The indices of a selection as integers.
pub open spec fn as_ints(v: Seq<usize>) -> Seq<int> {
    v.map_values(|i: usize| i as int)
}

fn find_field(specs: &[FieldSpec], key: &Vec<char>) -> (r: Option<usize>)
    ensures
        match r {
            Some(i) => field_position(spec_keys(specs@), key@) == Some(i as int) && i < specs.len(),
            None => field_position(spec_keys(specs@), key@) is None,
        },
{
    let mut i: usize = 0;
    assert(spec_keys(specs@).skip(0) == spec_keys(specs@));
    while i < specs.len()
        invariant
            i <= specs.len(),
            forall|j: int| 0 <= j < i ==> !eq_ignore_ascii_case(#[trigger] spec_keys(specs@)[j], key@),
        decreases specs.len() - i,
    {
        let k = chars_of(specs[i].0);
        if chars_eq_ignore_ascii_case(&k, key) {
            proof {
                lemma_field_position_first(spec_keys(specs@), key@, i as int);
            }
            return Some(i);
        }
        i = i + 1;
    }
    proof {
        lemma_field_position_none(spec_keys(specs@), key@);
    }
    None
}

proof fn lemma_field_position_first(keys: Seq<Seq<char>>, key: Seq<char>, i: int)
    requires
        0 <= i < keys.len(),
        eq_ignore_ascii_case(keys[i], key),
        forall|j: int| 0 <= j < i ==> !eq_ignore_ascii_case(#[trigger] keys[j], key),
    ensures
        field_position(keys, key) == Some(i),
    decreases i,
{
    if i > 0 {
        assert forall|j: int| 0 <= j < i - 1 implies !eq_ignore_ascii_case(#[trigger] keys.drop_first()[j], key) by {
            assert(keys.drop_first()[j] == keys[j + 1]);
        }
        lemma_field_position_first(keys.drop_first(), key, i - 1);
    }
}

proof fn lemma_field_position_none(keys: Seq<Seq<char>>, key: Seq<char>)
    requires
        forall|j: int| 0 <= j < keys.len() ==> !eq_ignore_ascii_case(#[trigger] keys[j], key),
    ensures
        field_position(keys, key) is None,
    decreases keys.len(),
{
    if keys.len() > 0 {
        assert forall|j: int| 0 <= j < keys.len() - 1 implies !eq_ignore_ascii_case(#[trigger] keys.drop_first()[j], key) by {
            assert(keys.drop_first()[j] == keys[j + 1]);
        }
        lemma_field_position_none(keys.drop_first(), key);
    }
}

fn unknown_field_message(specs: &[FieldSpec], key: &String) -> (r: String)
    ensures
        r@ == unknown_field_text(key@, spec_keys(specs@)),
{
    let mut names: Vec<Vec<char>> = Vec::new();
    let mut i: usize = 0;
    while i < specs.len()
        invariant
            i <= specs.len(),
            views(names@) == spec_keys(specs@).take(i as int),
        decreases specs.len() - i,
    {
        let ghost prev = names@;
        let k = chars_of(specs[i].0);
        names.push(k);
        i = i + 1;
        assert(views(names@) =~= spec_keys(specs@).take(i as int)) by {
            assert(views(names@) =~= views(prev).push(k@));
        }
    }
    assert(spec_keys(specs@).take(specs.len() as int) =~= spec_keys(specs@));
    let available = join_chars(&names, ", ");
    let mut v: Vec<char> = Vec::new();
    push_str(&mut v, "unknown field '");
    push_str(&mut v, key.as_str());
    push_str(&mut v, "' (available: ");
    crate::text::push_chars(&mut v, &available);
    push_str(&mut v, ")");
    assert(v@ =~= unknown_field_text(key@, spec_keys(specs@)));
    string_from_chars(&v)
}

proof fn lemma_select_fields_err_prefix(keys: Seq<Seq<char>>, wanted: Seq<Seq<char>>, k: int)
    requires
        0 <= k <= wanted.len(),
        select_fields(keys, wanted.take(k)) is Err,
    ensures
        select_fields(keys, wanted) == select_fields(keys, wanted.take(k)),
    decreases wanted.len() - k,
{
    if k < wanted.len() {
        assert(wanted.take(k + 1).drop_last() == wanted.take(k));
        lemma_select_fields_err_prefix(keys, wanted, k + 1);
    } else {
        assert(wanted.take(k) == wanted);
    }
}

/// The first key equal up to ASCII case is found, or none is when no key is.
proof fn lemma_field_position(keys: Seq<Seq<char>>, key: Seq<char>)
    ensures
        field_position(keys, key) matches Some(i) ==> 0 <= i < keys.len() && eq_ignore_ascii_case(keys[i], key),
        field_position(keys, key) is None <==> !key_matched(keys, key),
    decreases keys.len(),
{
    if keys.len() > 0 {
        lemma_field_position(keys.drop_first(), key);
        if key_matched(keys.drop_first(), key) {
            let j = choose|j: int| 0 <= j < keys.drop_first().len() && eq_ignore_ascii_case(#[trigger] keys.drop_first()[j], key);
            assert(keys[j + 1] == keys.drop_first()[j]);
        }
        if key_matched(keys, key) && !eq_ignore_ascii_case(keys[0], key) {
            let j = choose|j: int| 0 <= j < keys.len() && eq_ignore_ascii_case(#[trigger] keys[j], key);
            assert(keys.drop_first()[j - 1] == keys[j]);
        }
        if eq_ignore_ascii_case(keys[0], key) {
            assert(key_matched(keys, key));
        }
    }
}

/// Some key equals `key` up to ASCII case.
pub open spec fn key_matched(keys: Seq<Seq<char>>, key: Seq<char>) -> bool {
    exists|j: int| 0 <= j < keys.len() && eq_ignore_ascii_case(#[trigger] keys[j], key)
}

/// A selection picks, for each wanted key in order, a column whose key
/// equals it up to ASCII case; it is refused exactly when some wanted key
/// equals none.
pub proof fn lemma_select_fields(keys: Seq<Seq<char>>, wanted: Seq<Seq<char>>)
    ensures
        select_fields(keys, wanted) matches Ok(v) ==> v.len() == wanted.len() && forall|i: int|
            0 <= i < v.len() ==> 0 <= #[trigger] v[i] < keys.len() && eq_ignore_ascii_case(keys[v[i]], wanted[i]),
        select_fields(keys, wanted) is Err <==> exists|i: int| 0 <= i < wanted.len() && !key_matched(keys, #[trigger] wanted[i]),
    decreases wanted.len(),
{
    if wanted.len() > 0 {
        let pre = wanted.drop_last();
        lemma_select_fields(keys, pre);
        lemma_field_position(keys, wanted.last());
        assert(wanted.last() == wanted[wanted.len() - 1]);
        if exists|i: int| 0 <= i < pre.len() && !key_matched(keys, #[trigger] pre[i]) {
            let i = choose|i: int| 0 <= i < pre.len() && !key_matched(keys, #[trigger] pre[i]);
            assert(wanted[i] == pre[i]);
        }
        if exists|i: int| 0 <= i < wanted.len() && !key_matched(keys, #[trigger] wanted[i]) {
            let i = choose|i: int| 0 <= i < wanted.len() && !key_matched(keys, #[trigger] wanted[i]);
            if i < pre.len() {
                assert(pre[i] == wanted[i]);
            }
        }
        if let Ok(v) = select_fields(keys, wanted) {
            let pv = select_fields(keys, pre)->Ok_0;
            assert forall|i: int| 0 <= i < v.len() implies 0 <= #[trigger] v[i] < keys.len() && eq_ignore_ascii_case(
                keys[v[i]],
                wanted[i],
            ) by {
                if i < pv.len() {
                    assert(v[i] == pv[i]);
                    assert(wanted[i] == pre[i]);
                }
            }
        }
    }
}

/// The columns to show: every column in its default order, or those that
/// the keys select (up to ASCII case), in the keys' order.
pub fn resolve_field_indices(specs: &[FieldSpec], fields: Option<&[String]>) -> (r: Result<Vec<usize>, String>)
    ensures
        match fields {
            None => r matches Ok(v) && as_ints(v@) == Seq::new(specs@.len(), |i: int| i),
            Some(keys) => match r {
                Ok(v) => select_fields(spec_keys(specs@), keys@.map_values(|s: String| s@))
                    == Ok::<Seq<int>, Seq<char>>(as_ints(v@)),
                Err(e) => select_fields(spec_keys(specs@), keys@.map_values(|s: String| s@))
                    == Err::<Seq<int>, Seq<char>>(e@),
            },
        },
        r matches Ok(v) ==> forall|j: int| 0 <= j < v@.len() ==> #[trigger] v@[j] < specs@.len(),
{
    match fields {
        None => {
            let mut v: Vec<usize> = Vec::new();
            let mut i: usize = 0;
            assert(as_ints(v@) =~= Seq::new(0 as nat, |k: int| k));
            while i < specs.len()
                invariant
                    i <= specs.len(),
                    as_ints(v@) == Seq::new(i as nat, |k: int| k),
                    forall|j: int| 0 <= j < v@.len() ==> #[trigger] v@[j] < specs@.len(),
                decreases specs.len() - i,
            {
                let ghost prev = v@;
                v.push(i);
                assert(as_ints(v@) =~= as_ints(prev).push(i as int));
                i = i + 1;
                assert(as_ints(v@) =~= Seq::new(i as nat, |k: int| k));
            }
            Ok(v)
        },
        Some(keys) => {
            let ghost wanted = keys@.map_values(|s: String| s@);
            let mut v: Vec<usize> = Vec::new();
            let mut i: usize = 0;
            assert(wanted.take(0) =~= Seq::<Seq<char>>::empty());
            assert(as_ints(v@) =~= Seq::<int>::empty());
            while i < keys.len()
                invariant
                    i <= keys.len(),
                    fields == Some(keys),
                    wanted == keys@.map_values(|s: String| s@),
                    select_fields(spec_keys(specs@), wanted.take(i as int)) == Ok::<Seq<int>, Seq<char>>(as_ints(v@)),
                    forall|j: int| 0 <= j < v@.len() ==> #[trigger] v@[j] < specs@.len(),
                decreases keys.len() - i,
            {
                assert(wanted.take(i + 1).drop_last() =~= wanted.take(i as int));
                assert(wanted.take(i + 1).last() == keys@[i as int]@);
                let k = chars_of(keys[i].as_str());
                match find_field(specs, &k) {
                    Some(p) => {
                        let ghost prev = v@;
                        v.push(p);
                        assert(as_ints(v@) =~= as_ints(prev).push(p as int));
                    },
                    None => {
                        let msg = unknown_field_message(specs, &keys[i]);
                        proof {
                            lemma_select_fields_err_prefix(spec_keys(specs@), wanted, i + 1);
                        }
                        return Err(msg);
                    },
                }
                i = i + 1;
            }
            assert(wanted.take(keys.len() as int) =~= wanted);
            Ok(v)
        },
    }
}


/// The columns selected by optional keys.
pub open spec fn selected_fields(specs: Seq<FieldSpec>, fields: Option<Seq<Seq<char>>>) -> Result<Seq<int>, Seq<char>> {
    match fields {
        None => Ok(Seq::new(specs.len(), |i: int| i)),
        Some(keys) => select_fields(spec_keys(specs), keys),
    }
}

/// The `tabular` format of one column, e.g. `{:<}`.
pub open spec fn column_format(align: char) -> Seq<char> {
    seq!['{', ':', align, '}']
}

/// The row format of the selected columns, separated by two spaces.
pub open spec fn row_format(specs: Seq<FieldSpec>, idx: Seq<int>) -> Seq<char> {
    join(idx.map_values(|i: int| column_format(specs[i].2)), "  "@)
}

/// The row format of plain columns with these alignments, two spaces
/// between columns.
pub open spec fn plain_format(aligns: Seq<char>) -> Seq<char> {
    join(aligns.map_values(|a: char| column_format(a)), "  "@)
}

/// `format` is a `tabular` row format of `n` plain columns.
pub open spec fn plain_columns(format: Seq<char>, n: nat) -> bool {
    exists|aligns: Seq<char>|
        aligns.len() == n && (forall|k: int| 0 <= k < n ==> is_alignment(#[trigger] aligns[k])) && format
            == #[trigger] plain_format(aligns)
}

/// The texts of the cells of a row.
pub open spec fn cell_texts(row: Vec<String>) -> Seq<Seq<char>> {
    row@.map_values(|c: String| c@)
}

/// What `tabular` prints for a table of the row format `format` whose first
/// row holds the cells `header` and whose other rows hold `rows`, each cell
/// added with its escape sequences left out of its width.
pub uninterp spec fn tabular_layout(format: Seq<char>, header: Seq<Seq<char>>, rows: Seq<Seq<Seq<char>>>) -> Seq<char>;

/// `tabular`'s layout of a table (`Table::new`, `Row::add_ansi_cell`,
/// `Table::add_row`, then `Display`). Its result is named; `Table::new`
/// panics on a malformed format and `Table::add_row` on a row with another
/// number of cells than the format has columns, so both are ruled out.
#[verifier::external_body]
fn tabular_lay_out(format: &str, header: &Vec<String>, rows: &Vec<Vec<String>>) -> (r: String)
    requires
        plain_columns(format@, header.len() as nat),
        forall|i: int| 0 <= i < rows.len() ==> (#[trigger] rows@[i]).len() == header.len(),
    ensures
        r@ == tabular_layout(format@, cell_texts(*header), rows@.map_values(|row: Vec<String>| cell_texts(row))),
{
    let mut table = tabular::Table::new(format);
    let mut head = tabular::Row::new();
    for c in header.iter() {
        head.add_ansi_cell(c);
    }
    table.add_row(head);
    for cells in rows.iter() {
        let mut row = tabular::Row::new();
        for c in cells.iter() {
            row.add_ansi_cell(c);
        }
        table.add_row(row);
    }
    table.to_string()
}

/// A table ready to be laid out: the row format, the header cells and the
/// cells of each row.
pub struct PrintableTable {
    pub row_spec: String,
    pub header: Vec<String>,
    pub rows: Vec<Vec<String>>,
}

impl PrintableTable {
    /// The row format has a plain column for each header cell, and each
    /// row has a cell for each column.
    pub open spec fn wf(&self) -> bool {
        &&& plain_columns(self.row_spec@, self.header.len() as nat)
        &&& forall|i: int| 0 <= i < self.rows.len() ==> (#[trigger] self.rows@[i]).len() == self.header.len()
    }

    /// The table as `tabular` lays it out: the header, then each row, every
    /// column as wide as its widest cell (escape sequences not counted).
    pub fn render(&self) -> (r: String)
        requires
            self.wf(),
        ensures
            r@ == tabular_layout(
                self.row_spec@,
                cell_texts(self.header),
                self.rows@.map_values(|row: Vec<String>| cell_texts(row)),
            ),
    {
        tabular_lay_out(self.row_spec.as_str(), &self.header, &self.rows)
    }
}

/// Collections shown as tables.
pub trait TablePrintable {
    /// Whether every item can be shown.
    spec fn table_ok(&self) -> bool;

    /// Renders as a table. `fields` selects and orders columns by key;
    /// `None` uses every column in its default order.
    fn to_printable_table(&self, fields: Option<&[String]>) -> (r: Result<PrintableTable, String>)
        requires
            self.table_ok(),
    ;
}

/// A cell that an item may show in column `j`: some text the item may show
/// there, styled as the item styles cells.
pub open spec fn cell_of<T: RowPrintable>(item: T, j: int, cell: Seq<char>) -> bool {
    exists|v: Seq<char>| item.value_ok(j, v) && item.cell_ok(v, cell)
}

/// The optional keys taken by view.
pub open spec fn keys_view(fields: Option<&[String]>) -> Option<Seq<Seq<char>>> {
    match fields {
        Some(k) => Some(k@.map_values(|s: String| s@)),
        None => None,
    }
}

impl<T: RowPrintable> TablePrintable for Vec<T> {
    open spec fn table_ok(&self) -> bool {
        forall|i: int| 0 <= i < self@.len() ==> (#[trigger] self@[i]).printable()
    }

    fn to_printable_table(&self, fields: Option<&[String]>) -> (r: Result<PrintableTable, String>)
        ensures
            match r {
                Err(e) => selected_fields(T::field_spec_list(), keys_view(fields)) == Err::<Seq<int>, Seq<char>>(e@) || (
                selected_fields(T::field_spec_list(), keys_view(fields)) is Ok && e@ == clock_error_text() && exists|i: int|
                    0 <= i < self@.len() && (#[trigger] self@[i]).reads_clock()),
                Ok(t) => t.wf() && exists|idx: Seq<int>| {
                    &&& selected_fields(T::field_spec_list(), keys_view(fields)) == Ok::<Seq<int>, Seq<char>>(idx)
                    &&& t.row_spec@ == row_format(T::field_spec_list(), idx)
                    &&& t.header@.len() == idx.len()
                    &&& forall|j: int| 0 <= j < idx.len() ==> painted(underline_code(), T::field_spec_list()[idx[j]].1@, #[trigger] t.header@[j]@)
                    &&& t.rows@.len() == self@.len()
                    &&& forall|i: int| 0 <= i < self@.len() ==> (#[trigger] t.rows@[i])@.len() == idx.len()
                    &&& forall|i: int, j: int| 0 <= i < self@.len() && 0 <= j < idx.len() ==>
                        cell_of(self@[i], idx[j], #[trigger] t.rows@[i]@[j]@)
                },
            },
    {
        let specs = T::field_specs();
        let indices = match resolve_field_indices(specs.as_slice(), fields) {
            Ok(v) => v,
            Err(e) => {
                return Err(e);
            },
        };
        let ghost idx = as_ints(indices@);
        let ghost sl = T::field_spec_list();
        assert(specs@ == sl);
        assert(selected_fields(sl, keys_view(fields)) == Ok::<Seq<int>, Seq<char>>(idx));
        let mut formats: Vec<Vec<char>> = Vec::new();
        let mut header: Vec<String> = Vec::new();
        let mut j: usize = 0;
        while j < indices.len()
            invariant
                j <= indices.len(),
                specs@ == sl,
                sl == T::field_spec_list(),
                idx == as_ints(indices@),
                forall|k: int| 0 <= k < indices@.len() ==> #[trigger] indices@[k] < specs@.len(),
                views(formats@) == idx.take(j as int).map_values(|i: int| column_format(sl[i].2)),
                header@.len() == j,
                forall|k: int| 0 <= k < j ==> painted(underline_code(), sl[idx[k]].1@, #[trigger] header@[k]@),
            decreases indices.len() - j,
        {
            let spec_j = specs[indices[j]];
            let f: Vec<char> = vec!['{', ':', spec_j.2, '}'];
            let ghost prev = formats@;
            formats.push(f);
            assert(views(formats@) =~= idx.take(j + 1).map_values(|i: int| column_format(sl[i].2))) by {
                assert(views(formats@) =~= views(prev).push(f@));
            }
            header.push(underline(spec_j.1));
            j = j + 1;
        }
        assert(idx.take(indices.len() as int) =~= idx);
        let row_spec_chars = join_chars(&formats, "  ");
        let row_spec = string_from_chars(&row_spec_chars);
        let mut rows: Vec<Vec<String>> = Vec::new();
        let mut i: usize = 0;
        while i < self.len()
            invariant
                i <= self.len(),
                specs@ == sl,
                sl == T::field_spec_list(),
                idx == as_ints(indices@),
                forall|k: int| 0 <= k < indices@.len() ==> #[trigger] indices@[k] < specs@.len(),
                forall|k: int| 0 <= k < self@.len() ==> (#[trigger] self@[k]).printable(),
                selected_fields(T::field_spec_list(), keys_view(fields)) == Ok::<Seq<int>, Seq<char>>(idx),
                rows@.len() == i,
                forall|a: int| 0 <= a < i ==> (#[trigger] rows@[a])@.len() == idx.len(),
                forall|a: int, b: int| 0 <= a < i && 0 <= b < idx.len() ==>
                    cell_of(self@[a], idx[b], #[trigger] rows@[a]@[b]@),
            decreases self.len() - i,
        {
            let item = &self[i];
            let values = match item.row_values() {
                Ok(v) => v,
                Err(e) => {
                    assert(self@[i as int].reads_clock());
                    assert(selected_fields(T::field_spec_list(), keys_view(fields)) == Ok::<Seq<int>, Seq<char>>(idx));
                    return Err(e);
                },
            };
            let mut row: Vec<String> = Vec::new();
            let mut k: usize = 0;
            while k < indices.len()
                invariant
                    k <= indices.len(),
                    i < self@.len(),
                    *item == self@[i as int],
                    idx == as_ints(indices@),
                    specs@ == sl,
                    sl == T::field_spec_list(),
                sl == T::field_spec_list(),
                    values@.len() == T::field_spec_list().len(),
                    forall|k2: int| 0 <= k2 < indices@.len() ==> #[trigger] indices@[k2] < specs@.len(),
                    forall|j2: int| 0 <= j2 < values@.len() ==> item.value_ok(j2, #[trigger] values@[j2]@),
                    row@.len() == k,
                    forall|b: int| 0 <= b < k ==> cell_of(*item, idx[b], #[trigger] row@[b]@),
                decreases indices.len() - k,
            {
                let col = indices[k];
                assert(col < specs@.len());
                assert(specs@.len() == sl.len());
                assert(values@.len() == sl.len());
                let value = values[col].clone();
                let ghost vv = value@;
                assert(item.value_ok(col as int, vv));
                let cell = item.style_cell(value);
                let ghost prev_row = row@;
                row.push(cell);
                assert forall|b: int| 0 <= b < k + 1 implies cell_of(*item, idx[b], #[trigger] row@[b]@) by {
                    if b < k {
                        assert(row@[b] == prev_row[b]);
                    } else {
                        assert(row@[b] == cell);
                        assert(idx[b] == col as int);
                        assert(item.value_ok(idx[b], vv) && item.cell_ok(vv, row@[b]@));
                    }
                }
                k = k + 1;
            }
            let ghost prev_rows = rows@;
            rows.push(row);
            assert forall|a: int, b: int| 0 <= a < i + 1 && 0 <= b < idx.len() implies
                cell_of(self@[a], idx[b], #[trigger] rows@[a]@[b]@) by {
                if a < i {
                    assert(rows@[a] == prev_rows[a]);
                } else {
                    assert(rows@[a] == row);
                    assert(self@[a] == *item);
                }
            }
            i = i + 1;
        }
        let t = PrintableTable { row_spec, header, rows };
        assert(views(formats@) == idx.map_values(|i: int| column_format(sl[i].2)));
        assert(t.row_spec@ == row_format(sl, idx));
        proof {
            let aligns = idx.map_values(|i: int| sl[i].2);
            assert(aligns.map_values(|a: char| column_format(a)) =~= idx.map_values(|i: int| column_format(sl[i].2)));
            assert forall|k: int| 0 <= k < aligns.len() implies is_alignment(#[trigger] aligns[k]) by {
                assert(indices@[k] < specs@.len());
                assert(is_alignment(specs@[indices@[k] as int].2));
            }
            assert(t.row_spec@ == plain_format(aligns));
        }
        assert(selected_fields(T::field_spec_list(), keys_view(fields)) == Ok::<Seq<int>, Seq<char>>(idx));
        Ok(t)
    }
}

} // verus!

use boat_cli::models::{PrintableTag, RowPrintable};
use boat_cli::sorting::{sort_indices_by_key, sort_texts};
use boat_cli::table::{resolve_field_indices, PrintableTable, TablePrintable};

#[test]
fn all_fields_when_none_are_asked() {
    let specs = PrintableTag::field_specs();
    assert_eq!(resolve_field_indices(&specs, None).unwrap(), vec![0, 1]);
}

#[test]
fn fields_are_chosen_case_insensitively_in_order() {
    let specs = PrintableTag::field_specs();
    let keys = vec!["NAME".to_string(), "id".to_string()];
    assert_eq!(resolve_field_indices(&specs, Some(&keys)).unwrap(), vec![1, 0]);
}

#[test]
fn unknown_field_is_refused() {
    let specs = PrintableTag::field_specs();
    let keys = vec!["id".to_string(), "color".to_string()];
    let e = resolve_field_indices(&specs, Some(&keys)).unwrap_err();
    assert_eq!(e, "unknown field 'color' (available: id, name)");
}

#[test]
fn table_of_tags() {
    let tags = vec![PrintableTag { id: 1, name: "x".into() }, PrintableTag { id: 2, name: "y".into() }];
    let t = tags.to_printable_table(None).unwrap();
    assert_eq!(t.row_spec, "{:>}  {:<}");
    assert_eq!(t.header.len(), 2);
    assert!(t.header[0].contains("ID"));
    assert_eq!(t.rows, vec![vec!["1".to_string(), "x".to_string()], vec!["2".to_string(), "y".to_string()]]);
    let keys = vec!["name".to_string()];
    let t = tags.to_printable_table(Some(&keys)).unwrap();
    assert_eq!(t.row_spec, "{:<}");
    assert_eq!(t.rows[1], vec!["y".to_string()]);
    assert!(tags.to_printable_table(Some(&["nope".to_string()])).is_err());
}

#[test]
fn index_sort_is_stable() {
    let keys = vec![3i64, 1, 3, 2];
    assert_eq!(sort_indices_by_key(&keys, false), vec![1, 3, 0, 2]);
    assert_eq!(sort_indices_by_key(&keys, true), vec![0, 2, 3, 1]);
}

#[test]
fn texts_sort_by_code_point() {
    let v: Vec<Vec<char>> = vec!["b".chars().collect(), "B".chars().collect(), "ab".chars().collect(), "a".chars().collect()];
    let s: Vec<String> = sort_texts(v).into_iter().map(|c| c.into_iter().collect()).collect();
    assert_eq!(s, vec!["B", "a", "ab", "b"]);
}

#[test]
fn tables_are_laid_out_with_padded_columns() {
    let t = PrintableTable {
        row_spec: "{:<}  {:>}".to_string(),
        header: vec!["a".to_string(), "bb".to_string()],
        rows: vec![vec!["ccc".to_string(), "d".to_string()]],
    };
    assert_eq!(t.render(), "a    bb\nccc   d\n");
}

#[test]
fn escape_sequences_take_no_width_in_a_layout() {
    let t = PrintableTable {
        row_spec: "{:^}  {:<}".to_string(),
        header: vec!["\u{1b}[4mID\u{1b}[0m".to_string(), "N".to_string()],
        rows: vec![vec!["1234".to_string(), "x".to_string()]],
    };
    assert_eq!(t.render(), " \u{1b}[4mID\u{1b}[0m   N\n1234  x\n");
}

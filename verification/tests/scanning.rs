use lake_retrieval::predicate::{evaluate_row, DataFilter, FilterValue};
use lake_retrieval::scanner::{
    column_index, evaluate_predicate, judge_row, same_text, scan_rows,
};

fn s(text: &str) -> String {
    text.to_string()
}

fn list(items: &[&str]) -> Vec<String> {
    items.iter().map(|item| item.to_string()).collect()
}

fn on(field: &str, value: FilterValue<String>) -> DataFilter<String> {
    DataFilter { field: s(field), value }
}

fn row(cells: &[Option<&str>]) -> Vec<Option<String>> {
    cells.iter().map(|cell| cell.map(|text| text.to_string())).collect()
}

fn schema() -> Vec<String> {
    list(&["id", "status", "patient"])
}

fn rows() -> Vec<Vec<Option<String>>> {
    vec![
        row(&[Some("1"), Some("completed"), Some("p-1")]),
        row(&[Some("2"), Some("in-progress"), Some("p-1")]),
        row(&[Some("3"), None, Some("p-2")]),
        row(&[Some("4"), Some("completed"), Some("p-2")]),
        row(&[Some("5"), Some("completed"), Some("p-1")]),
    ]
}

#[test]
fn same_text_compares_contents() {
    assert!(same_text(&s("status"), &s("status")));
    assert!(!same_text(&s("status"), &s("Status")));
    assert!(!same_text(&s("status"), &s("statu")));
}

#[test]
fn column_index_finds_the_first_column_of_the_name() {
    let names = list(&["id", "status", "id", "status"]);
    assert_eq!(column_index(&names, &s("id")), Some(0));
    assert_eq!(column_index(&names, &s("status")), Some(1));
}

#[test]
fn column_index_of_an_absent_field_is_none() {
    assert_eq!(column_index(&schema(), &s("region")), None);
    assert_eq!(column_index(&Vec::new(), &s("id")), None);
    assert_eq!(column_index(&schema(), &s("")), None);
}

#[test]
fn row_truth_table() {
    let cell = Some(s("completed"));
    assert!(evaluate_row(&FilterValue::Equal(s("completed")), &cell));
    assert!(!evaluate_row(&FilterValue::Equal(s("complete")), &cell));
    assert!(!evaluate_row(&FilterValue::NotEqual(s("completed")), &cell));
    assert!(evaluate_row(&FilterValue::NotEqual(s("complete")), &cell));
    assert!(evaluate_row(&FilterValue::Like(s("mplet")), &cell));
    assert!(!evaluate_row(&FilterValue::Like(s("progress")), &cell));
    assert!(!evaluate_row(&FilterValue::NotLike(s("mplet")), &cell));
    assert!(evaluate_row(&FilterValue::NotLike(s("progress")), &cell));
    let values = list(&["completed", "amended"]);
    assert!(evaluate_row(&FilterValue::In(values.clone()), &cell));
    assert!(!evaluate_row(&FilterValue::NotIn(values), &cell));
    let others = list(&["stopped", "amended"]);
    assert!(!evaluate_row(&FilterValue::In(others.clone()), &cell));
    assert!(evaluate_row(&FilterValue::NotIn(others), &cell));
    assert!(!evaluate_row(&FilterValue::Null, &cell));
    assert!(evaluate_row(&FilterValue::NotNull, &cell));
}

#[test]
fn or_is_equality_at_the_row_level() {
    let cell = Some(s("completed"));
    assert!(evaluate_row(&FilterValue::Or(s("completed")), &cell));
    assert!(!evaluate_row(&FilterValue::Or(s("complete")), &cell));
}

#[test]
fn a_cell_without_text_is_null() {
    assert!(evaluate_row(&FilterValue::Null, &None));
    assert!(!evaluate_row(&FilterValue::NotNull, &None));
}

#[test]
fn a_comparison_without_text_fails() {
    assert!(!evaluate_row(&FilterValue::Equal(s("x")), &None));
    assert!(!evaluate_row(&FilterValue::Equal(s("")), &None));
    assert!(!evaluate_row(&FilterValue::Or(s("x")), &None));
    assert!(!evaluate_row(&FilterValue::Like(s("x")), &None));
    assert!(!evaluate_row(&FilterValue::Like(s("")), &None));
    assert!(!evaluate_row(&FilterValue::In(list(&["x", ""])), &None));
}

#[test]
fn a_negated_comparison_without_text_fails_too() {
    assert!(!evaluate_row(&FilterValue::NotEqual(s("x")), &None));
    assert!(!evaluate_row(&FilterValue::NotLike(s("x")), &None));
    assert!(!evaluate_row(&FilterValue::NotIn(list(&["x"])), &None));
    assert!(!evaluate_row(&FilterValue::NotIn(Vec::new()), &None));
}

#[test]
fn the_empty_text_is_a_text() {
    let cell = Some(s(""));
    assert!(!evaluate_row(&FilterValue::Null, &cell));
    assert!(evaluate_row(&FilterValue::NotNull, &cell));
    assert!(evaluate_row(&FilterValue::Equal(s("")), &cell));
    assert!(evaluate_row(&FilterValue::Like(s("")), &cell));
}

#[test]
fn like_superset_of_equal_on_rows() {
    for text in ["completed", "complete", "", "not completed yet"] {
        let cell = Some(s(text));
        if evaluate_row(&FilterValue::Equal(s("completed")), &cell) {
            assert!(evaluate_row(&FilterValue::Like(s("completed")), &cell));
        }
    }
    let cell = Some(s("not completed yet"));
    assert!(!evaluate_row(&FilterValue::Equal(s("completed")), &cell));
    assert!(evaluate_row(&FilterValue::Like(s("completed")), &cell));
}

#[test]
fn evaluate_predicate_reads_the_named_column() {
    let cells = row(&[Some("1"), Some("completed"), Some("p-1")]);
    let by_status = on("status", FilterValue::Equal(s("completed")));
    assert!(evaluate_predicate(&schema(), &cells, &by_status));
    let by_id = on("id", FilterValue::Equal(s("completed")));
    assert!(!evaluate_predicate(&schema(), &cells, &by_id));
}

#[test]
fn evaluate_predicate_reads_the_first_column_of_a_repeated_name() {
    let names = list(&["status", "status"]);
    let cells = row(&[Some("first"), Some("second")]);
    assert!(evaluate_predicate(&names, &cells, &on("status", FilterValue::Equal(s("first")))));
    assert!(!evaluate_predicate(&names, &cells, &on("status", FilterValue::Equal(s("second")))));
}

#[test]
fn evaluate_predicate_ignores_an_absent_field() {
    let cells = row(&[Some("1"), Some("completed"), Some("p-1")]);
    for value in [
        FilterValue::Equal(s("x")),
        FilterValue::NotEqual(s("1")),
        FilterValue::Like(s("x")),
        FilterValue::In(Vec::new()),
        FilterValue::Or(s("x")),
        FilterValue::Null,
        FilterValue::NotNull,
    ] {
        assert!(evaluate_predicate(&schema(), &cells, &on("region", value)));
    }
}

#[test]
fn not_null_rejects_a_row_missing_the_column() {
    let names = list(&["id", "status"]);
    let filters = vec![on("status", FilterValue::NotNull)];
    assert!(!judge_row(&names, &row(&[Some("1"), None]), &filters));
    assert!(!judge_row(&names, &row(&[Some("1")]), &filters));
    assert!(judge_row(&names, &row(&[Some("1"), Some("done")]), &filters));
}

#[test]
fn null_on_a_row_missing_the_column_keeps_it() {
    let names = list(&["id", "status"]);
    let filters = vec![on("status", FilterValue::Null)];
    assert!(judge_row(&names, &row(&[Some("1"), None]), &filters));
    assert!(judge_row(&names, &row(&[Some("1")]), &filters));
    assert!(!judge_row(&names, &row(&[Some("1"), Some("done")]), &filters));
}

#[test]
fn judge_row_without_predicates_keeps() {
    assert!(judge_row(&schema(), &row(&[None, None, None]), &Vec::new()));
}

#[test]
fn judge_row_needs_every_predicate() {
    let cells = row(&[Some("1"), Some("completed"), Some("p-1")]);
    let both = vec![
        on("status", FilterValue::Equal(s("completed"))),
        on("patient", FilterValue::Equal(s("p-1"))),
    ];
    assert!(judge_row(&schema(), &cells, &both));
    let second_fails = vec![
        on("status", FilterValue::Equal(s("completed"))),
        on("patient", FilterValue::Equal(s("p-2"))),
    ];
    assert!(!judge_row(&schema(), &cells, &second_fails));
    let first_fails = vec![
        on("status", FilterValue::Equal(s("stopped"))),
        on("patient", FilterValue::Equal(s("p-1"))),
    ];
    assert!(!judge_row(&schema(), &cells, &first_fails));
}

#[test]
fn judge_row_rejects_a_comparison_on_a_missing_text() {
    let cells = row(&[Some("1"), None, Some("p-1")]);
    for value in [
        FilterValue::Equal(s("completed")),
        FilterValue::Or(s("completed")),
        FilterValue::Like(s("x")),
        FilterValue::In(list(&["completed"])),
        FilterValue::NotEqual(s("completed")),
        FilterValue::NotLike(s("x")),
        FilterValue::NotIn(list(&["completed"])),
    ] {
        let filters = vec![on("patient", FilterValue::Equal(s("p-1"))), on("status", value)];
        assert!(!judge_row(&schema(), &cells, &filters));
    }
}

#[test]
fn judge_row_does_not_depend_on_the_order_of_the_predicates() {
    let cells = row(&[Some("1"), None, Some("p-1")]);
    let one = vec![on("status", FilterValue::Equal(s("v"))), on("status", FilterValue::NotNull)];
    let other = vec![on("status", FilterValue::NotNull), on("status", FilterValue::Equal(s("v")))];
    assert!(!judge_row(&schema(), &cells, &one));
    assert!(!judge_row(&schema(), &cells, &other));
    let one = vec![on("status", FilterValue::Null), on("patient", FilterValue::Like(s("p-")))];
    let other = vec![on("patient", FilterValue::Like(s("p-"))), on("status", FilterValue::Null)];
    assert!(judge_row(&schema(), &cells, &one));
    assert!(judge_row(&schema(), &cells, &other));
}

#[test]
fn scan_rows_lists_the_kept_rows_in_order() {
    let filters = vec![on("patient", FilterValue::Equal(s("p-1")))];
    assert_eq!(scan_rows(&schema(), &rows(), &filters), vec![0, 1, 4]);
    let filters = vec![on("status", FilterValue::NotNull), on("patient", FilterValue::Like(s("-2")))];
    assert_eq!(scan_rows(&schema(), &rows(), &filters), vec![3]);
}

#[test]
fn scan_rows_without_predicates_keeps_all() {
    assert_eq!(scan_rows(&schema(), &rows(), &Vec::new()), vec![0, 1, 2, 3, 4]);
    assert_eq!(scan_rows(&schema(), &Vec::new(), &Vec::new()), Vec::<usize>::new());
}

#[test]
fn scan_rows_ignores_predicates_on_absent_fields() {
    let with = vec![
        on("region", FilterValue::Equal(s("east"))),
        on("patient", FilterValue::Equal(s("p-2"))),
        on("yy__patient_id", FilterValue::Null),
    ];
    let without = vec![on("patient", FilterValue::Equal(s("p-2")))];
    assert_eq!(scan_rows(&schema(), &rows(), &with), vec![2, 3]);
    assert_eq!(scan_rows(&schema(), &rows(), &with), scan_rows(&schema(), &rows(), &without));
    let only_absent = vec![on("region", FilterValue::Equal(s("east")))];
    assert_eq!(scan_rows(&schema(), &rows(), &only_absent), vec![0, 1, 2, 3, 4]);
}

#[test]
fn scan_rows_rejects_the_row_without_text_and_goes_on() {
    for value in [
        FilterValue::Equal(s("completed")),
        FilterValue::Or(s("completed")),
        FilterValue::Like(s("completed")),
        FilterValue::In(list(&["completed"])),
    ] {
        let filters = vec![on("status", value)];
        assert_eq!(scan_rows(&schema(), &rows(), &filters), vec![0, 3, 4]);
    }
    for value in [
        FilterValue::NotEqual(s("completed")),
        FilterValue::NotLike(s("completed")),
        FilterValue::NotIn(list(&["completed"])),
    ] {
        let filters = vec![on("status", value)];
        assert_eq!(scan_rows(&schema(), &rows(), &filters), vec![1]);
    }
}

#[test]
fn scan_rows_with_like_for_equal_keeps_a_superset() {
    let names = list(&["a", "b"]);
    let table = vec![
        row(&[Some("xvx"), None]),
        row(&[Some("v"), Some("w")]),
        row(&[Some("vv"), Some("w")]),
        row(&[Some("u"), Some("w")]),
    ];
    let equal = vec![on("a", FilterValue::Equal(s("v"))), on("b", FilterValue::Equal(s("w")))];
    let like = vec![on("a", FilterValue::Like(s("v"))), on("b", FilterValue::Equal(s("w")))];
    let by_equal = scan_rows(&names, &table, &equal);
    let by_like = scan_rows(&names, &table, &like);
    assert_eq!(by_equal, vec![1]);
    assert_eq!(by_like, vec![1, 2]);
    for position in &by_equal {
        assert!(by_like.contains(position));
    }
    assert!(by_like.len() >= by_equal.len());
}

#[test]
fn scan_rows_does_not_depend_on_the_order_of_the_predicates() {
    let names = list(&["c"]);
    let table = vec![row(&[None]), row(&[Some("v")]), row(&[Some("w")])];
    let one = vec![on("c", FilterValue::Equal(s("v"))), on("c", FilterValue::NotNull)];
    let other = vec![on("c", FilterValue::NotNull), on("c", FilterValue::Equal(s("v")))];
    assert_eq!(scan_rows(&names, &table, &one), vec![1]);
    assert_eq!(scan_rows(&names, &table, &other), vec![1]);
    let three = vec![
        on("patient", FilterValue::Equal(s("p-1"))),
        on("status", FilterValue::Like(s("comp"))),
        on("id", FilterValue::NotEqual(s("1"))),
    ];
    let turned = vec![three[2].clone(), three[0].clone(), three[1].clone()];
    assert_eq!(scan_rows(&schema(), &rows(), &three), vec![4]);
    assert_eq!(scan_rows(&schema(), &rows(), &turned), vec![4]);
}

#[test]
fn scan_rows_with_two_lists_keeps_what_both_keep() {
    let first = vec![on("patient", FilterValue::Equal(s("p-1")))];
    let second = vec![on("status", FilterValue::Equal(s("completed")))];
    let mut both = first.clone();
    both.extend(second.clone());
    let by_first = scan_rows(&schema(), &rows(), &first);
    let by_second = scan_rows(&schema(), &rows(), &second);
    let by_both = scan_rows(&schema(), &rows(), &both);
    assert_eq!(by_first, vec![0, 1, 4]);
    assert_eq!(by_second, vec![0, 3, 4]);
    assert_eq!(by_both, vec![0, 4]);
    for position in 0..rows().len() {
        assert_eq!(
            by_both.contains(&position),
            by_first.contains(&position) && by_second.contains(&position)
        );
    }
}

#[test]
fn scan_rows_twice_gives_the_same_rows() {
    let filters = vec![on("status", FilterValue::Null)];
    let first = scan_rows(&schema(), &rows(), &filters);
    assert_eq!(first, scan_rows(&schema(), &rows(), &filters));
    assert_eq!(first, vec![2]);
}

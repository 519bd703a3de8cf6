use lake_retrieval::report::{assemble, FileError, FileFailure, FileOutcome, RowFailure};

fn rec(text: &str) -> Option<String> {
    Some(text.to_string())
}

fn recs(items: &[&str]) -> Vec<String> {
    items.iter().map(|item| item.to_string()).collect()
}

#[test]
fn assemble_nothing() {
    let report = assemble::<String>(Vec::new());
    assert!(report.records.is_empty());
    assert!(report.failed_files.is_empty());
    assert!(report.failed_rows.is_empty());
}

#[test]
fn assemble_concatenates_in_file_order_then_row_order() {
    let report = assemble(vec![
        FileOutcome::Scanned(vec![rec("a1"), rec("a2")]),
        FileOutcome::Scanned(Vec::new()),
        FileOutcome::Scanned(vec![rec("c1")]),
        FileOutcome::Scanned(vec![rec("d1"), rec("d2"), rec("d3")]),
    ]);
    assert_eq!(report.records, recs(&["a1", "a2", "c1", "d1", "d2", "d3"]));
    assert!(report.failed_files.is_empty());
    assert!(report.failed_rows.is_empty());
}

#[test]
fn one_of_two_files_cannot_be_opened() {
    let report = assemble(vec![
        FileOutcome::Failed(FileError::OpenFailed),
        FileOutcome::Scanned(vec![rec("b1"), rec("b2")]),
    ]);
    assert_eq!(report.records, recs(&["b1", "b2"]));
    assert_eq!(report.failed_files, vec![FileFailure { file: 0, error: FileError::OpenFailed }]);
    assert!(report.failed_rows.is_empty());
}

#[test]
fn a_row_that_fails_to_decode_costs_only_itself() {
    let report = assemble(vec![
        FileOutcome::Scanned(vec![rec("a1"), None, rec("a3")]),
        FileOutcome::Scanned(vec![None]),
        FileOutcome::Scanned(vec![rec("c1"), rec("c2"), None]),
    ]);
    assert_eq!(report.records, recs(&["a1", "a3", "c1", "c2"]));
    assert!(report.failed_files.is_empty());
    assert_eq!(
        report.failed_rows,
        vec![
            RowFailure { file: 0, row: 1 },
            RowFailure { file: 1, row: 0 },
            RowFailure { file: 2, row: 2 },
        ]
    );
}

#[test]
fn every_kind_of_file_failure_is_recorded() {
    let report = assemble(vec![
        FileOutcome::Failed(FileError::SchemaUnreadable),
        FileOutcome::Scanned(vec![rec("b1")]),
        FileOutcome::Failed(FileError::RowsUnreadable),
        FileOutcome::Scanned(Vec::new()),
        FileOutcome::Scanned(vec![None, rec("e2")]),
        FileOutcome::Failed(FileError::OpenFailed),
    ]);
    assert_eq!(report.records, recs(&["b1", "e2"]));
    assert_eq!(
        report.failed_files,
        vec![
            FileFailure { file: 0, error: FileError::SchemaUnreadable },
            FileFailure { file: 2, error: FileError::RowsUnreadable },
            FileFailure { file: 5, error: FileError::OpenFailed },
        ]
    );
    assert_eq!(report.failed_rows, vec![RowFailure { file: 4, row: 0 }]);
}

#[test]
fn all_files_failing_gives_no_record() {
    let report = assemble::<u32>(vec![
        FileOutcome::Failed(FileError::OpenFailed),
        FileOutcome::Failed(FileError::OpenFailed),
    ]);
    assert!(report.records.is_empty());
    assert_eq!(report.failed_files.len(), 2);
    assert_eq!(report.failed_files[1], FileFailure { file: 1, error: FileError::OpenFailed });
}

#[test]
fn assembling_twice_gives_the_same_report() {
    let outcomes = || {
        vec![
            FileOutcome::Scanned(vec![Some(1u32), None, Some(3)]),
            FileOutcome::Failed(FileError::OpenFailed),
            FileOutcome::Scanned(vec![Some(4)]),
        ]
    };
    let first = assemble(outcomes());
    let second = assemble(outcomes());
    assert_eq!(first.records, vec![1, 3, 4]);
    assert_eq!(first.records, second.records);
    assert_eq!(first.failed_files, second.failed_files);
    assert_eq!(first.failed_rows, second.failed_rows);
}

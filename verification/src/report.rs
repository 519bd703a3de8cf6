//! Folding the outcomes of the scanned files into one report: the decoded
//! records in file order and row order, beside the files and rows that
//! failed.

use crate::sequences::lemma_filter_map_concat;
use vstd::prelude::*;
use vstd::seq_lib::lemma_flatten_concat;

verus! {

/// Why a file contributes no rows.
#[derive(Clone, Copy, Debug, PartialEq, Eq)]
pub enum FileError {
    /// The file could not be opened.
    OpenFailed,
    /// The file's schema could not be read.
    SchemaUnreadable,
    /// The iteration over the file's rows could not start.
    RowsUnreadable,
}

/// What scanning one file gave.
#[derive(Debug)]
pub enum FileOutcome<R> {
    /// The rows that the predicates kept, in row order: each the decoded
    /// record, or `None` where the row could not be decoded.
    Scanned(Vec<Option<R>>),
    /// The file failed as a whole.
    Failed(FileError),
}

/// A file that failed, by its position among the scanned files.
#[derive(Clone, Copy, Debug, PartialEq, Eq)]
pub struct FileFailure {
    pub file: usize,
    pub error: FileError,
}

/// A row that could not be decoded, by the position of its file and its own
/// position among the rows kept from that file.
#[derive(Clone, Copy, Debug, PartialEq, Eq)]
pub struct RowFailure {
    pub file: usize,
    pub row: usize,
}

/// The result of a retrieval.
#[derive(Debug)]
pub struct RetrievalReport<R> {
    /// The decoded records, in file order and, within a file, in row order.
    pub records: Vec<R>,
    /// The files that failed, in file order.
    pub failed_files: Vec<FileFailure>,
    /// The rows that could not be decoded, in file order and row order.
    pub failed_rows: Vec<RowFailure>,
}

/// The numbers `0, 1, .., n - 1`.
pub open spec fn positions(n: int) -> Seq<int> {
    Seq::new(n as nat, |i: int| i)
}

/// The records among a file's rows, in row order.
pub open spec fn decoded<R>(rows: Seq<Option<R>>) -> Seq<R> {
    rows.filter_map(|row: Option<R>| row)
}

/// The rows of a file that was scanned; none for a file that failed.
pub open spec fn rows_of<R>(outcome: FileOutcome<R>) -> Seq<Option<R>> {
    match outcome {
        FileOutcome::Scanned(rows) => rows@,
        FileOutcome::Failed(_) => Seq::empty(),
    }
}

/// The records of all files, in file order and row order.
pub open spec fn all_records<R>(outcomes: Seq<FileOutcome<R>>) -> Seq<R> {
    outcomes.map_values(|outcome: FileOutcome<R>| decoded(rows_of(outcome))).flatten()
}

/// The failure of the file at position `file`, if it failed.
pub open spec fn failure_at<R>(outcomes: Seq<FileOutcome<R>>, file: int) -> Option<FileFailure> {
    if 0 <= file < outcomes.len() {
        match outcomes[file] {
            FileOutcome::Scanned(_) => None,
            FileOutcome::Failed(error) => Some(FileFailure { file: file as usize, error }),
        }
    } else {
        None
    }
}

/// The failures among the first `n` files, in file order.
pub open spec fn file_failures_among<R>(outcomes: Seq<FileOutcome<R>>, n: int) -> Seq<FileFailure> {
    positions(n).filter_map(|file: int| failure_at(outcomes, file))
}

/// The failures among all files, in file order.
pub open spec fn file_failures<R>(outcomes: Seq<FileOutcome<R>>) -> Seq<FileFailure> {
    file_failures_among(outcomes, outcomes.len() as int)
}

/// The failure of the row at position `row` of a file, if it has no record.
pub open spec fn missing_at<R>(file: usize, rows: Seq<Option<R>>, row: int) -> Option<RowFailure> {
    if 0 <= row < rows.len() && rows[row] is None {
        Some(RowFailure { file, row: row as usize })
    } else {
        None
    }
}

/// The failures among the first `n` rows of a file, in row order.
pub open spec fn row_failures_among<R>(file: usize, rows: Seq<Option<R>>, n: int) -> Seq<
    RowFailure,
> {
    positions(n).filter_map(|row: int| missing_at(file, rows, row))
}

/// The failures among the rows of the first `n` files, file by file.
pub open spec fn row_failures_by_file<R>(outcomes: Seq<FileOutcome<R>>, n: int) -> Seq<
    Seq<RowFailure>,
> {
    Seq::new(
        n as nat,
        |file: int|
            row_failures_among(
                file as usize,
                rows_of(outcomes[file]),
                rows_of(outcomes[file]).len() as int,
            ),
    )
}

/// The rows of all files that could not be decoded, in file order and row
/// order.
pub open spec fn row_failures<R>(outcomes: Seq<FileOutcome<R>>) -> Seq<RowFailure> {
    row_failures_by_file(outcomes, outcomes.len() as int).flatten()
}

proof fn lemma_decoded_step<R>(rows: Seq<Option<R>>, n: int)
    requires
        0 <= n < rows.len(),
    ensures
        decoded(rows.take(n + 1)) == match rows[n] {
            Some(record) => decoded(rows.take(n)).push(record),
            None => decoded(rows.take(n)),
        },
{
    assert(rows.take(n + 1).drop_last() =~= rows.take(n));
    match rows[n] {
        Some(record) => {
            assert(decoded(rows.take(n)) + seq![record] =~= decoded(rows.take(n)).push(record));
        },
        None => {},
    }
}

proof fn lemma_row_failures_step<R>(file: usize, rows: Seq<Option<R>>, n: int)
    requires
        0 <= n < rows.len(),
    ensures
        row_failures_among(file, rows, n + 1) == match rows[n] {
            Some(_) => row_failures_among(file, rows, n),
            None => row_failures_among(file, rows, n).push(RowFailure { file, row: n as usize }),
        },
{
    let failure = RowFailure { file, row: n as usize };
    assert(positions(n + 1).drop_last() =~= positions(n));
    assert(positions(n + 1).last() == n);
    if rows[n] is None {
        assert(row_failures_among(file, rows, n) + seq![failure] =~= row_failures_among(
            file,
            rows,
            n,
        ).push(failure));
    }
}

proof fn lemma_file_failures_step<R>(outcomes: Seq<FileOutcome<R>>, n: int)
    requires
        0 <= n < outcomes.len(),
    ensures
        file_failures_among(outcomes, n + 1) == match outcomes[n] {
            FileOutcome::Scanned(_) => file_failures_among(outcomes, n),
            FileOutcome::Failed(error) => file_failures_among(outcomes, n).push(
                FileFailure { file: n as usize, error },
            ),
        },
{
    assert(positions(n + 1).drop_last() =~= positions(n));
    assert(positions(n + 1).last() == n);
    match outcomes[n] {
        FileOutcome::Scanned(_) => {},
        FileOutcome::Failed(error) => {
            let failure = FileFailure { file: n as usize, error };
            assert(file_failures_among(outcomes, n) + seq![failure] =~= file_failures_among(
                outcomes,
                n,
            ).push(failure));
        },
    }
}

/// Folds the outcomes of the scanned files, given in file order, into one
/// report. A file that failed and a row that could not be decoded are
/// recorded and contribute no record; every other row contributes its
/// record, at its place in file order and row order.
pub fn assemble<R>(outcomes: Vec<FileOutcome<R>>) -> (report: RetrievalReport<R>)
    ensures
        reports(report, outcomes@),
{
    let ghost per_file = outcomes@.map_values(
        |outcome: FileOutcome<R>| decoded(rows_of(outcome)),
    );
    let mut records: Vec<R> = Vec::new();
    let mut failed_files: Vec<FileFailure> = Vec::new();
    let mut failed_rows: Vec<RowFailure> = Vec::new();
    let file_count = outcomes.len();
    let mut file: usize = 0;
    proof {
        assert(per_file.take(0) =~= Seq::<Seq<R>>::empty());
        assert(row_failures_by_file(outcomes@, 0) =~= Seq::<Seq<RowFailure>>::empty());
    }
    for outcome in files: outcomes
        invariant
            files.seq() == outcomes@,
            file == files.index(),
            file_count == outcomes@.len(),
            per_file == outcomes@.map_values(|outcome: FileOutcome<R>| decoded(rows_of(outcome))),
            records@ == per_file.take(file as int).flatten(),
            failed_files@ == file_failures_among(outcomes@, file as int),
            failed_rows@ == row_failures_by_file(outcomes@, file as int).flatten(),
    {
        let ghost records_before = records@;
        let ghost failed_rows_before = failed_rows@;
        proof {
            lemma_file_failures_step(outcomes@, file as int);
            assert(per_file.take(file as int + 1) =~= per_file.take(file as int).push(
                per_file[file as int],
            ));
            per_file.take(file as int).lemma_flatten_push(per_file[file as int]);
            let by_file = row_failures_by_file(outcomes@, file as int);
            let last = row_failures_among(
                file,
                rows_of(outcomes@[file as int]),
                rows_of(outcomes@[file as int]).len() as int,
            );
            assert(row_failures_by_file(outcomes@, file as int + 1) =~= by_file.push(last));
            by_file.lemma_flatten_push(last);
        }
        match outcome {
            FileOutcome::Scanned(rows) => {
                let row_count = rows.len();
                let mut row: usize = 0;
                proof {
                    assert(rows@.take(0) =~= Seq::<Option<R>>::empty());
                    assert(positions(0) =~= Seq::<int>::empty());
                    assert(records@ =~= records_before + decoded(rows@.take(0)));
                    assert(failed_rows@ =~= failed_rows_before + row_failures_among(
                        file,
                        rows@,
                        0,
                    ));
                }
                for cell in cells: rows
                    invariant
                        cells.seq() == rows@,
                        row == cells.index(),
                        row_count == rows@.len(),
                        records@ == records_before + decoded(rows@.take(row as int)),
                        failed_rows@ == failed_rows_before + row_failures_among(
                            file,
                            rows@,
                            row as int,
                        ),
                {
                    proof {
                        lemma_decoded_step(rows@, row as int);
                        lemma_row_failures_step(file, rows@, row as int);
                    }
                    match cell {
                        Some(record) => {
                            records.push(record);
                            assert(records@ =~= records_before + decoded(
                                rows@.take(row as int + 1),
                            ));
                        },
                        None => {
                            failed_rows.push(RowFailure { file, row });
                            assert(failed_rows@ =~= failed_rows_before + row_failures_among(
                                file,
                                rows@,
                                row as int + 1,
                            ));
                        },
                    }
                    row += 1;
                }
                assert(rows@.take(row as int) =~= rows@);
            },
            FileOutcome::Failed(error) => {
                failed_files.push(FileFailure { file, error });
                proof {
                    assert(positions(0) =~= Seq::<int>::empty());
                    assert(records@ =~= records_before + Seq::<R>::empty());
                    assert(failed_rows@ =~= failed_rows_before + Seq::<RowFailure>::empty());
                }
            },
        }
        file += 1;
    }
    assert(per_file.take(file as int) =~= per_file);
    RetrievalReport { records, failed_files, failed_rows }
}

/// Whether `report` is the report of `outcomes`.
pub open spec fn reports<R>(report: RetrievalReport<R>, outcomes: Seq<FileOutcome<R>>) -> bool {
    &&& report.records@ == all_records(outcomes)
    &&& report.failed_files@ == file_failures(outcomes)
    &&& report.failed_rows@ == row_failures(outcomes)
}

/// The records of a list of files are those of any first part of it,
/// followed by those of the rest.
pub proof fn lemma_records_concat<R>(first: Seq<FileOutcome<R>>, rest: Seq<FileOutcome<R>>)
    ensures
        all_records(first + rest) == all_records(first) + all_records(rest),
{
    let records = |outcome: FileOutcome<R>| decoded(rows_of(outcome));
    assert((first + rest).map_values(records) =~= first.map_values(records) + rest.map_values(
        records,
    ));
    lemma_flatten_concat(first.map_values(records), rest.map_values(records));
}

/// The records of one file alone.
pub proof fn lemma_records_single<R>(outcome: FileOutcome<R>)
    ensures
        all_records(seq![outcome]) == decoded(rows_of(outcome)),
{
    let records = |outcome: FileOutcome<R>| decoded(rows_of(outcome));
    let one = seq![outcome].map_values(records);
    assert(one =~= seq![decoded(rows_of(outcome))]);
    one.lemma_flatten_one_element();
}

/// The records of a retrieval are those of the files before any one file,
/// followed by that file's own, followed by those of the files after it.
pub proof fn lemma_records_around_file<R>(outcomes: Seq<FileOutcome<R>>, file: int)
    requires
        0 <= file < outcomes.len(),
    ensures
        all_records(outcomes) == all_records(outcomes.take(file)) + decoded(
            rows_of(outcomes[file]),
        ) + all_records(outcomes.skip(file + 1)),
{
    let before = outcomes.take(file);
    let own = seq![outcomes[file]];
    let after = outcomes.skip(file + 1);
    assert(outcomes =~= before + own + after);
    lemma_records_concat(before + own, after);
    lemma_records_concat(before, own);
    lemma_records_single(outcomes[file]);
}

/// The records of a file are those of the rows before any one row, followed
/// by that row's own record if it has one, followed by those of the rows
/// after it.
pub proof fn lemma_records_around_row<R>(rows: Seq<Option<R>>, row: int)
    requires
        0 <= row < rows.len(),
    ensures
        decoded(rows) == decoded(rows.take(row)) + (match rows[row] {
            Some(record) => seq![record],
            None => Seq::empty(),
        }) + decoded(rows.skip(row + 1)),
{
    let keep = |cell: Option<R>| cell;
    assert(rows =~= rows.take(row) + seq![rows[row]] + rows.skip(row + 1));
    lemma_filter_map_concat(rows.take(row) + seq![rows[row]], rows.skip(row + 1), keep);
    lemma_filter_map_concat(rows.take(row), seq![rows[row]], keep);
    Seq::lemma_filter_map_singleton(rows[row], keep);
}

/// A file that fails costs its own rows and nothing else: the records of a
/// retrieval are those of the files before the failed one, followed by
/// those of the files after it.
pub proof fn lemma_failed_file_is_isolated<R>(outcomes: Seq<FileOutcome<R>>, file: int)
    requires
        0 <= file < outcomes.len(),
        outcomes[file] is Failed,
    ensures
        all_records(outcomes) == all_records(outcomes.take(file)) + all_records(
            outcomes.skip(file + 1),
        ),
{
    lemma_records_around_file(outcomes, file);
    assert(decoded(rows_of(outcomes[file])) =~= Seq::<R>::empty());
    assert(all_records(outcomes.take(file)) + Seq::<R>::empty() =~= all_records(
        outcomes.take(file),
    ));
}

/// A row that cannot be decoded costs its own record and nothing else. The
/// records of a retrieval are, in this order: those of the files before the
/// row's file, those of the rows before it in its file, its own record if it
/// has one, those of the rows after it, and those of the files after its
/// file.
pub proof fn lemma_failed_row_is_isolated<R>(outcomes: Seq<FileOutcome<R>>, file: int, row: int)
    requires
        0 <= file < outcomes.len(),
        0 <= row < rows_of(outcomes[file]).len(),
    ensures
        all_records(outcomes) == all_records(outcomes.take(file)) + decoded(
            rows_of(outcomes[file]).take(row),
        ) + (match rows_of(outcomes[file])[row] {
            Some(record) => seq![record],
            None => Seq::empty(),
        }) + decoded(rows_of(outcomes[file]).skip(row + 1)) + all_records(
            outcomes.skip(file + 1),
        ),
{
    let rows = rows_of(outcomes[file]);
    let before = all_records(outcomes.take(file));
    let after = all_records(outcomes.skip(file + 1));
    let head = decoded(rows.take(row));
    let own: Seq<R> = match rows[row] {
        Some(record) => seq![record],
        None => Seq::empty(),
    };
    let tail = decoded(rows.skip(row + 1));
    assert(all_records(outcomes) == before + decoded(rows) + after) by {
        lemma_records_around_file(outcomes, file);
    }
    assert(decoded(rows) == head + own + tail) by {
        lemma_records_around_row(rows, row);
    }
    assert(before + (head + own + tail) + after =~= before + head + own + tail + after);
}

/// Assembling the same outcomes twice gives the same report.
pub proof fn lemma_report_repeatable<R>(
    outcomes: Seq<FileOutcome<R>>,
    first: RetrievalReport<R>,
    second: RetrievalReport<R>,
)
    requires
        reports(first, outcomes),
        reports(second, outcomes),
    ensures
        first.records@ == second.records@,
        first.failed_files@ == second.failed_files@,
        first.failed_rows@ == second.failed_rows@,
{
}

} // verus!

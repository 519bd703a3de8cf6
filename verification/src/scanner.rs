//! Row filtering: deciding, for the rows of one scanned file, which ones a
//! set of predicates keeps.
//!
//! A file is described by its schema, the ordered names of its columns, and
//! a row by its cells: for each column the text read from it, or `None` where
//! the column yields no text.

use crate::predicate::{
    cell_text, conditions, evaluate_row, row_accepts, Condition, DataFilter, FieldCondition,
};
use crate::sequences::{
    lemma_filter_agree, lemma_filter_membership, lemma_filter_refines, lemma_first_occurrence,
    lemma_no_occurrence,
};
use crate::text::{lemma_substring_reflexive, texts};
use itertools::Itertools;
use vstd::prelude::*;
use vstd::seq_lib::to_multiset_contains;

verus! {

/// The texts of a row's cells, in column order.
pub open spec fn cells(row: Seq<Option<String>>) -> Seq<Option<Seq<char>>> {
    row.map_values(|cell: Option<String>| cell_text(cell))
}

/// The cells of each row of a table, in row order.
pub open spec fn table(rows: Seq<Vec<Option<String>>>) -> Seq<Seq<Option<Seq<char>>>> {
    rows.map_values(|row: Vec<Option<String>>| cells(row@))
}

/// The cell of a row at a column, absent where the row is too short.
pub open spec fn cell_at(row: Seq<Option<Seq<char>>>, column: int) -> Option<Seq<char>> {
    if 0 <= column < row.len() {
        row[column]
    } else {
        None
    }
}

/// Whether one predicate holds on a row. A predicate on a field that the
/// schema does not hold is ignored, which counts as holding. Any other is
/// evaluated on the cell of the first column of that name.
pub open spec fn predicate_holds(
    schema: Seq<Seq<char>>,
    row: Seq<Option<Seq<char>>>,
    filter: FieldCondition,
) -> bool {
    match schema.index_of_first(filter.field) {
        Some(column) => row_accepts(filter.value, cell_at(row, column)),
        None => true,
    }
}

/// Whether the predicates keep a row: each of them holds on it.
pub open spec fn row_kept(
    schema: Seq<Seq<char>>,
    row: Seq<Option<Seq<char>>>,
    filters: Seq<FieldCondition>,
) -> bool {
    forall|k: int| 0 <= k < filters.len() ==> predicate_holds(schema, row, #[trigger] filters[k])
}

/// Whether the predicates keep the row at a position of a table.
pub open spec fn keeps_position(
    schema: Seq<Seq<char>>,
    rows: Seq<Seq<Option<Seq<char>>>>,
    filters: Seq<FieldCondition>,
    i: int,
) -> bool {
    0 <= i < rows.len() && row_kept(schema, rows[i], filters)
}

/// The positions of the rows that the predicates keep, in increasing order.
pub open spec fn kept_rows(
    schema: Seq<Seq<char>>,
    rows: Seq<Seq<Option<Seq<char>>>>,
    filters: Seq<FieldCondition>,
) -> Seq<int> {
    Seq::new(rows.len(), |i: int| i).filter(|i: int| keeps_position(schema, rows, filters, i))
}

/// The positions in a list of kept rows, as mathematical integers.
pub open spec fn positions_of(kept: Seq<usize>) -> Seq<int> {
    kept.map_values(|i: usize| i as int)
}

/// Whether two strings hold the same text.
pub fn same_text(a: &String, b: &String) -> (same: bool)
    ensures
        same == (a@ == b@),
{
    *a == *b
}

/// `Itertools::find_position` over the names of a schema, keeping the
/// position only: the position of the first name for which the closure
/// answers `true`, or `None` where it does so for none. The closure compares
/// a name with `field` by `same_text`.
#[verifier::external_body]
fn find_field_position(schema: &Vec<String>, field: &String) -> (found: Option<usize>)
    ensures
        match found {
            Some(column) => {
                &&& column < schema@.len()
                &&& schema@[column as int]@ == field@
                &&& forall|j: int| 0 <= j < column ==> schema@[j]@ != field@
            },
            None => forall|j: int| 0 <= j < schema@.len() ==> schema@[j]@ != field@,
        },
{
    schema.iter().find_position(|name| same_text(name, field)).map(|found| found.0)
}

/// Resolves a field name to the first column of that name.
pub fn column_index(schema: &Vec<String>, field: &String) -> (found: Option<usize>)
    ensures
        match found {
            Some(column) => texts(schema@).index_of_first(field@) == Some(column as int),
            None => texts(schema@).index_of_first(field@) is None,
        },
{
    let found = find_field_position(schema, field);
    proof {
        match found {
            Some(column) => lemma_first_occurrence(texts(schema@), field@, column as int),
            None => lemma_no_occurrence(texts(schema@), field@),
        }
    }
    found
}

/// Evaluates one predicate on a row.
pub fn evaluate_predicate(
    schema: &Vec<String>,
    row: &Vec<Option<String>>,
    filter: &DataFilter<String>,
) -> (holds: bool)
    ensures
        holds == predicate_holds(texts(schema@), cells(row@), filter@),
{
    match column_index(schema, &filter.field) {
        Some(column) => {
            if column < row.len() {
                evaluate_row(&filter.value, &row[column])
            } else {
                let missing: Option<String> = None;
                evaluate_row(&filter.value, &missing)
            }
        },
        None => true,
    }
}

/// Judges one row against all predicates: the row is kept where each of them
/// holds. The predicates are taken in order, and the first that fails ends
/// the evaluation.
pub fn judge_row(
    schema: &Vec<String>,
    row: &Vec<Option<String>>,
    filters: &Vec<DataFilter<String>>,
) -> (kept: bool)
    ensures
        kept == row_kept(texts(schema@), cells(row@), conditions(filters@)),
{
    let mut k: usize = 0;
    while k < filters.len()
        invariant
            k <= filters.len(),
            forall|j: int|
                0 <= j < k ==> predicate_holds(
                    texts(schema@),
                    cells(row@),
                    #[trigger] conditions(filters@)[j],
                ),
        decreases filters.len() - k,
    {
        assert(conditions(filters@)[k as int] == filters@[k as int]@);
        if !evaluate_predicate(schema, row, &filters[k]) {
            return false;
        }
        k += 1;
    }
    true
}

/// Filters the rows of one file. The result lists the positions of the rows
/// on which every predicate holds, in row order.
pub fn scan_rows(
    schema: &Vec<String>,
    rows: &Vec<Vec<Option<String>>>,
    filters: &Vec<DataFilter<String>>,
) -> (kept: Vec<usize>)
    ensures
        positions_of(kept@) == kept_rows(texts(schema@), table(rows@), conditions(filters@)),
{
    let ghost names = texts(schema@);
    let ghost tab = table(rows@);
    let ghost conds = conditions(filters@);
    let ghost positions = Seq::new(tab.len(), |i: int| i);
    let ghost keeps = |i: int| keeps_position(names, tab, conds, i);
    let mut kept: Vec<usize> = Vec::new();
    let mut i: usize = 0;
    proof {
        assert(positions.take(0) =~= Seq::<int>::empty());
        assert(positions_of(kept@) =~= Seq::<int>::empty());
    }
    while i < rows.len()
        invariant
            i <= rows.len(),
            names == texts(schema@),
            tab == table(rows@),
            conds == conditions(filters@),
            positions == Seq::new(tab.len(), |i: int| i),
            keeps == (|i: int| keeps_position(names, tab, conds, i)),
            positions_of(kept@) == positions.take(i as int).filter(keeps),
        decreases rows.len() - i,
    {
        let ghost before = positions.take(i as int);
        proof {
            assert(positions.take(i as int + 1) =~= before.push(i as int));
            before.lemma_filter_push(i as int, keeps);
            assert(tab[i as int] == cells(rows@[i as int]@));
        }
        if judge_row(schema, &rows[i], filters) {
            let ghost kept_before = kept@;
            kept.push(i);
            assert(positions_of(kept@) =~= positions_of(kept_before).push(i as int));
        }
        i += 1;
    }
    assert(positions.take(i as int) =~= positions);
    kept
}

/// A position is among the kept rows exactly when it is a position of the
/// table and the predicates keep the row there.
pub proof fn lemma_kept_rows_membership(
    schema: Seq<Seq<char>>,
    rows: Seq<Seq<Option<Seq<char>>>>,
    filters: Seq<FieldCondition>,
    i: int,
)
    ensures
        kept_rows(schema, rows, filters).contains(i) <==> keeps_position(schema, rows, filters, i),
{
    let positions = Seq::new(rows.len(), |i: int| i);
    lemma_filter_membership(positions, |i: int| keeps_position(schema, rows, filters, i), i);
    if 0 <= i < rows.len() {
        assert(positions[i] == i);
    }
}

/// Two lists of predicates that keep the same rows of a table give the same
/// list of kept positions.
pub proof fn lemma_kept_rows_agree(
    schema: Seq<Seq<char>>,
    rows: Seq<Seq<Option<Seq<char>>>>,
    first: Seq<FieldCondition>,
    second: Seq<FieldCondition>,
)
    requires
        forall|i: int|
            0 <= i < rows.len() ==> row_kept(schema, #[trigger] rows[i], first) == row_kept(
                schema,
                rows[i],
                second,
            ),
    ensures
        kept_rows(schema, rows, first) == kept_rows(schema, rows, second),
{
    lemma_filter_agree(
        Seq::new(rows.len(), |i: int| i),
        |i: int| keeps_position(schema, rows, first, i),
        |i: int| keeps_position(schema, rows, second, i),
    );
}

/// A stronger list of predicates keeps a part of what a weaker list keeps:
/// filtering the rows kept by the weaker list with the stronger one gives
/// what the stronger one keeps of the whole table.
pub proof fn lemma_kept_rows_refine(
    schema: Seq<Seq<char>>,
    rows: Seq<Seq<Option<Seq<char>>>>,
    weaker: Seq<FieldCondition>,
    stronger: Seq<FieldCondition>,
)
    requires
        forall|i: int|
            0 <= i < rows.len() && row_kept(schema, #[trigger] rows[i], stronger) ==> row_kept(
                schema,
                rows[i],
                weaker,
            ),
    ensures
        kept_rows(schema, rows, stronger) == kept_rows(schema, rows, weaker).filter(
            |i: int| keeps_position(schema, rows, stronger, i),
        ),
        forall|i: int| #[trigger]
            kept_rows(schema, rows, stronger).contains(i) ==> kept_rows(
                schema,
                rows,
                weaker,
            ).contains(i),
{
    lemma_filter_refines(
        Seq::new(rows.len(), |i: int| i),
        |i: int| keeps_position(schema, rows, weaker, i),
        |i: int| keeps_position(schema, rows, stronger, i),
    );
    assert forall|i: int| #[trigger]
        kept_rows(schema, rows, stronger).contains(i) implies kept_rows(
        schema,
        rows,
        weaker,
    ).contains(i) by {
        lemma_kept_rows_membership(schema, rows, stronger, i);
        lemma_kept_rows_membership(schema, rows, weaker, i);
    }
}

/// A predicate on a field that the schema does not hold never rejects a
/// row: it holds on every row, and the rows kept with it are the rows kept
/// without it.
pub proof fn lemma_absent_field_never_rejects(
    schema: Seq<Seq<char>>,
    rows: Seq<Seq<Option<Seq<char>>>>,
    filters: Seq<FieldCondition>,
    k: int,
)
    requires
        0 <= k < filters.len(),
        !schema.contains(filters[k].field),
    ensures
        forall|row: Seq<Option<Seq<char>>>| #[trigger] predicate_holds(schema, row, filters[k]),
        forall|row: Seq<Option<Seq<char>>>|
            #[trigger] row_kept(schema, row, filters) == row_kept(schema, row, filters.remove(k)),
        kept_rows(schema, rows, filters) == kept_rows(schema, rows, filters.remove(k)),
{
    schema.index_of_first_ensures(filters[k].field);
    let rest = filters.remove(k);
    assert forall|row: Seq<Option<Seq<char>>>|
        #[trigger] row_kept(schema, row, filters) == row_kept(schema, row, rest) by {
        if row_kept(schema, row, filters) {
            assert forall|j: int| 0 <= j < rest.len() implies predicate_holds(
                schema,
                row,
                #[trigger] rest[j],
            ) by {
                if j < k {
                    assert(rest[j] == filters[j]);
                } else {
                    assert(rest[j] == filters[j + 1]);
                }
            }
        }
        if row_kept(schema, row, rest) {
            assert forall|j: int| 0 <= j < filters.len() implies predicate_holds(
                schema,
                row,
                #[trigger] filters[j],
            ) by {
                if j < k {
                    assert(filters[j] == rest[j]);
                } else if j > k {
                    assert(filters[j] == rest[j - 1]);
                }
            }
        }
    }
    lemma_kept_rows_agree(schema, rows, filters, rest);
}

/// The predicates with `Like(v)` in place of the predicate at `k`, on the
/// same field.
pub open spec fn with_like(filters: Seq<FieldCondition>, k: int, v: Seq<char>) -> Seq<
    FieldCondition,
> {
    filters.update(k, FieldCondition::like(filters[k].field, v))
}

/// Whatever `Equal(v)` accepts in a column, `Like(v)` accepts too. So where
/// an `Equal(v)` among the predicates is replaced by `Like(v)` on the same
/// field, every row kept before is still kept: the scan with `Like(v)`
/// returns every position that the scan with `Equal(v)` returns, and
/// filtering its result with the predicates that hold `Equal(v)` gives the
/// result of the scan with `Equal(v)`.
pub proof fn lemma_like_keeps_rows_equal_keeps(
    schema: Seq<Seq<char>>,
    rows: Seq<Seq<Option<Seq<char>>>>,
    filters: Seq<FieldCondition>,
    k: int,
    v: Seq<char>,
)
    requires
        0 <= k < filters.len(),
        filters[k].value == Condition::Equal(v),
    ensures
        forall|cell: Option<Seq<char>>| #[trigger]
            row_accepts(Condition::Equal(v), cell) ==> row_accepts(Condition::Like(v), cell),
        forall|row: Seq<Option<Seq<char>>>| #[trigger]
            row_kept(schema, row, filters) ==> row_kept(schema, row, with_like(filters, k, v)),
        forall|i: int| #[trigger]
            kept_rows(schema, rows, filters).contains(i) ==> kept_rows(
                schema,
                rows,
                with_like(filters, k, v),
            ).contains(i),
        kept_rows(schema, rows, filters) == kept_rows(schema, rows, with_like(filters, k, v)).filter(
            |i: int| keeps_position(schema, rows, filters, i),
        ),
{
    lemma_substring_reflexive(v);
    let relaxed = with_like(filters, k, v);
    assert forall|row: Seq<Option<Seq<char>>>| #[trigger]
        row_kept(schema, row, filters) implies row_kept(schema, row, relaxed) by {
        assert forall|j: int| 0 <= j < relaxed.len() implies predicate_holds(
            schema,
            row,
            #[trigger] relaxed[j],
        ) by {
            assert(predicate_holds(schema, row, filters[j]));
        }
    }
    lemma_kept_rows_refine(schema, rows, relaxed, filters);
}

/// The order of the predicates does not matter: two lists that hold the same
/// predicates, each as often as the other, keep the same rows.
pub proof fn lemma_order_of_predicates_is_immaterial(
    schema: Seq<Seq<char>>,
    rows: Seq<Seq<Option<Seq<char>>>>,
    filters: Seq<FieldCondition>,
    reordered: Seq<FieldCondition>,
)
    requires
        filters.to_multiset() == reordered.to_multiset(),
    ensures
        forall|row: Seq<Option<Seq<char>>>|
            #[trigger] row_kept(schema, row, filters) == row_kept(schema, row, reordered),
        kept_rows(schema, rows, filters) == kept_rows(schema, rows, reordered),
{
    assert forall|row: Seq<Option<Seq<char>>>|
        #[trigger] row_kept(schema, row, filters) == row_kept(schema, row, reordered) by {
        if row_kept(schema, row, filters) {
            assert forall|j: int| 0 <= j < reordered.len() implies predicate_holds(
                schema,
                row,
                #[trigger] reordered[j],
            ) by {
                assert(reordered.contains(reordered[j]));
                to_multiset_contains(reordered, reordered[j]);
                to_multiset_contains(filters, reordered[j]);
                let at = choose|at: int| 0 <= at < filters.len() && filters[at] == reordered[j];
                assert(predicate_holds(schema, row, filters[at]));
            }
        }
        if row_kept(schema, row, reordered) {
            assert forall|j: int| 0 <= j < filters.len() implies predicate_holds(
                schema,
                row,
                #[trigger] filters[j],
            ) by {
                assert(filters.contains(filters[j]));
                to_multiset_contains(filters, filters[j]);
                to_multiset_contains(reordered, filters[j]);
                let at = choose|at: int| 0 <= at < reordered.len() && reordered[at] == filters[j];
                assert(predicate_holds(schema, row, reordered[at]));
            }
        }
    }
    lemma_kept_rows_agree(schema, rows, filters, reordered);
}

/// The rows kept by two lists of predicates together are the rows kept by
/// both: a row is kept by `first + second` exactly when `first` keeps it and
/// `second` keeps it. So adding predicates never adds rows, and scanning
/// with `first + second` gives what `second` keeps of the result of
/// scanning with `first`.
pub proof fn lemma_kept_by_both(
    schema: Seq<Seq<char>>,
    rows: Seq<Seq<Option<Seq<char>>>>,
    first: Seq<FieldCondition>,
    second: Seq<FieldCondition>,
)
    ensures
        forall|row: Seq<Option<Seq<char>>>|
            #[trigger] row_kept(schema, row, first + second) <==> row_kept(schema, row, first)
                && row_kept(schema, row, second),
        forall|i: int|
            #[trigger] kept_rows(schema, rows, first + second).contains(i) <==> kept_rows(
                schema,
                rows,
                first,
            ).contains(i) && kept_rows(schema, rows, second).contains(i),
        kept_rows(schema, rows, first + second) == kept_rows(schema, rows, first).filter(
            |i: int| keeps_position(schema, rows, first + second, i),
        ),
{
    let both = first + second;
    assert forall|row: Seq<Option<Seq<char>>>|
        #[trigger] row_kept(schema, row, both) <==> row_kept(schema, row, first) && row_kept(
            schema,
            row,
            second,
        ) by {
        if row_kept(schema, row, both) {
            assert forall|j: int| 0 <= j < first.len() implies predicate_holds(
                schema,
                row,
                #[trigger] first[j],
            ) by {
                assert(both[j] == first[j]);
            }
            assert forall|j: int| 0 <= j < second.len() implies predicate_holds(
                schema,
                row,
                #[trigger] second[j],
            ) by {
                assert(both[first.len() + j] == second[j]);
            }
        }
        if row_kept(schema, row, first) && row_kept(schema, row, second) {
            assert forall|j: int| 0 <= j < both.len() implies predicate_holds(
                schema,
                row,
                #[trigger] both[j],
            ) by {
                if j < first.len() {
                    assert(both[j] == first[j]);
                } else {
                    assert(both[j] == second[j - first.len()]);
                }
            }
        }
    }
    assert forall|i: int|
        #[trigger] kept_rows(schema, rows, both).contains(i) <==> kept_rows(
            schema,
            rows,
            first,
        ).contains(i) && kept_rows(schema, rows, second).contains(i) by {
        lemma_kept_rows_membership(schema, rows, both, i);
        lemma_kept_rows_membership(schema, rows, first, i);
        lemma_kept_rows_membership(schema, rows, second, i);
    }
    lemma_kept_rows_refine(schema, rows, first, both);
}

/// Filtering the same rows with the same predicates twice gives the same
/// kept rows, in the same order.
pub proof fn lemma_scan_repeatable(
    schema: Seq<Seq<char>>,
    rows: Seq<Seq<Option<Seq<char>>>>,
    filters: Seq<FieldCondition>,
    first: Seq<usize>,
    second: Seq<usize>,
)
    requires
        positions_of(first) == kept_rows(schema, rows, filters),
        positions_of(second) == kept_rows(schema, rows, filters),
    ensures
        first == second,
{
    assert(first.len() == positions_of(first).len());
    assert(second.len() == positions_of(second).len());
    assert forall|j: int| 0 <= j < first.len() implies first[j] == second[j] by {
        assert(positions_of(first)[j] == first[j] as int);
        assert(positions_of(second)[j] == second[j] as int);
    }
    assert(first =~= second);
}

} // verus!

//! Field predicates and their two evaluators: one for the partition value
//! encoded in a file's path, one for a row's column value.

use crate::text::{contains_text, is_substring, list_contains, texts};
use vstd::prelude::*;

verus! {

/// The condition a predicate tests a value against.
#[derive(Clone, Debug, PartialEq, Eq)]
pub enum FilterValue<T> {
    Equal(T),
    NotEqual(T),
    Like(T),
    NotLike(T),
    In(Vec<T>),
    NotIn(Vec<T>),
    Or(T),
    Null,
    NotNull,
}

/// A predicate on one named field.
#[derive(Clone, Debug)]
pub struct DataFilter<T> {
    pub field: String,
    pub value: FilterValue<T>,
}

/// Mathematical form of a `FilterValue<String>`.
pub ghost enum Condition {
    Equal(Seq<char>),
    NotEqual(Seq<char>),
    Like(Seq<char>),
    NotLike(Seq<char>),
    In(Seq<Seq<char>>),
    NotIn(Seq<Seq<char>>),
    Or(Seq<char>),
    Null,
    NotNull,
}

/// Mathematical form of a `DataFilter<String>`.
pub ghost struct FieldCondition {
    pub field: Seq<char>,
    pub value: Condition,
}

impl FieldCondition {
    /// The predicate `Equal(v)` on `field`.
    pub open spec fn equal(field: Seq<char>, v: Seq<char>) -> FieldCondition {
        FieldCondition { field, value: Condition::Equal(v) }
    }

    /// The predicate `Like(v)` on `field`.
    pub open spec fn like(field: Seq<char>, v: Seq<char>) -> FieldCondition {
        FieldCondition { field, value: Condition::Like(v) }
    }

    /// The predicate `In(vs)` on `field`.
    pub open spec fn one_of(field: Seq<char>, vs: Seq<Seq<char>>) -> FieldCondition {
        FieldCondition { field, value: Condition::In(vs) }
    }
}

impl View for FilterValue<String> {
    type V = Condition;

    open spec fn view(&self) -> Condition {
        match *self {
            FilterValue::Equal(v) => Condition::Equal(v@),
            FilterValue::NotEqual(v) => Condition::NotEqual(v@),
            FilterValue::Like(v) => Condition::Like(v@),
            FilterValue::NotLike(v) => Condition::NotLike(v@),
            FilterValue::In(vs) => Condition::In(texts(vs@)),
            FilterValue::NotIn(vs) => Condition::NotIn(texts(vs@)),
            FilterValue::Or(v) => Condition::Or(v@),
            FilterValue::Null => Condition::Null,
            FilterValue::NotNull => Condition::NotNull,
        }
    }
}

impl View for DataFilter<String> {
    type V = FieldCondition;

    open spec fn view(&self) -> FieldCondition {
        FieldCondition { field: self.field@, value: self.value@ }
    }
}

/// The views of a list of predicates, in order.
pub open spec fn conditions(filters: Seq<DataFilter<String>>) -> Seq<FieldCondition> {
    filters.map_values(|f: DataFilter<String>| f@)
}

/// Whether a partition value satisfies a condition. Equality, membership and
/// substring containment are tested; `Or`, `Null` and `NotNull` have no
/// meaning for a value read out of a path and accept nothing.
pub open spec fn partition_accepts(c: Condition, value: Seq<char>) -> bool {
    match c {
        Condition::Equal(v) => value == v,
        Condition::NotEqual(v) => value != v,
        Condition::Like(v) => is_substring(v, value),
        Condition::NotLike(v) => !is_substring(v, value),
        Condition::In(vs) => vs.contains(value),
        Condition::NotIn(vs) => !vs.contains(value),
        Condition::Or(_) => false,
        Condition::Null => false,
        Condition::NotNull => false,
    }
}

/// Whether a column's text satisfies a condition. `Or` tests equality, as
/// `Equal` does; `Null` fails and `NotNull` holds, since there is a text.
pub open spec fn text_accepts(c: Condition, text: Seq<char>) -> bool {
    match c {
        Condition::Equal(v) => text == v,
        Condition::NotEqual(v) => text != v,
        Condition::Like(v) => is_substring(v, text),
        Condition::NotLike(v) => !is_substring(v, text),
        Condition::In(vs) => vs.contains(text),
        Condition::NotIn(vs) => !vs.contains(text),
        Condition::Or(v) => text == v,
        Condition::Null => false,
        Condition::NotNull => true,
    }
}

/// Whether a row's column satisfies a condition, where `cell` is the
/// column's text, or `None` when the row yields no text for it. Without a
/// text only `Null` holds: `NotNull` fails, and so does every condition that
/// compares texts, the negated ones (`NotEqual`, `NotLike`, `NotIn`)
/// included, since there is no text to compare.
pub open spec fn row_accepts(c: Condition, cell: Option<Seq<char>>) -> bool {
    match cell {
        Some(text) => text_accepts(c, text),
        None => c is Null,
    }
}

/// The text of a cell, if it has one.
pub open spec fn cell_text(cell: Option<String>) -> Option<Seq<char>> {
    match cell {
        Some(s) => Some(s@),
        None => None,
    }
}

/// Evaluates a condition against the partition value taken from a file path.
pub fn evaluate_partition(value: &FilterValue<String>, partition_value: &String) -> (accepted: bool)
    ensures
        accepted == partition_accepts(value@, partition_value@),
{
    match value {
        FilterValue::Equal(v) => *v == *partition_value,
        FilterValue::NotEqual(v) => !(*v == *partition_value),
        FilterValue::In(vs) => list_contains(vs, partition_value),
        FilterValue::NotIn(vs) => !list_contains(vs, partition_value),
        FilterValue::Like(v) => contains_text(partition_value, v),
        FilterValue::NotLike(v) => !contains_text(partition_value, v),
        _ => false,
    }
}

/// Evaluates a condition against one column of a row. A column without a
/// text satisfies `Null` and nothing else.
pub fn evaluate_row(value: &FilterValue<String>, cell: &Option<String>) -> (accepted: bool)
    ensures
        accepted == row_accepts(value@, cell_text(*cell)),
{
    match cell {
        Some(text) => match value {
            FilterValue::Equal(v) => *text == *v,
            FilterValue::NotEqual(v) => !(*text == *v),
            FilterValue::Or(v) => *text == *v,
            FilterValue::In(vs) => list_contains(vs, text),
            FilterValue::NotIn(vs) => !list_contains(vs, text),
            FilterValue::Like(v) => contains_text(text, v),
            FilterValue::NotLike(v) => !contains_text(text, v),
            FilterValue::Null => false,
            FilterValue::NotNull => true,
        },
        None => match value {
            FilterValue::Null => true,
            _ => false,
        },
    }
}

} // verus!

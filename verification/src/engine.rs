//! Planning a retrieval: the keys under which the index holds a collection,
//! the choice of the partition predicate, and the list of files to scan.

use crate::error::{index_failure, IndexError, RetrievalError};
use crate::partition::{apply_partition_filter, prune_outcome};
use crate::predicate::{conditions, DataFilter, FieldCondition};
use crate::sequences::{lemma_first_occurrence, lemma_no_occurrence};
use crate::text::texts;
use vstd::prelude::*;

verus! {

/// The name of a collection: database and resource, joined by `/`.
pub open spec fn collection_name_of(db_name: Seq<char>, resource_name: Seq<char>) -> Seq<char> {
    db_name + "/"@ + resource_name
}

/// The key under which the index lists a collection's partition columns.
pub open spec fn partition_columns_key_of(collection: Seq<char>) -> Seq<char> {
    collection + "/partition_columns"@
}

/// The key under which the index lists a collection's files.
pub open spec fn files_key_of(collection: Seq<char>) -> Seq<char> {
    collection + "/files"@
}

/// A relative path joined to a root: a relative path that starts with `/`
/// stands alone; any other follows the root, after one `/` unless the root is
/// empty or ends in `/` itself.
pub open spec fn joined(root: Seq<char>, relative: Seq<char>) -> Seq<char> {
    if relative.len() > 0 && relative[0] == '/' {
        relative
    } else if root.len() == 0 || root.last() == '/' {
        root + relative
    } else {
        root + seq!['/'] + relative
    }
}

/// The position of the first predicate on `column`, if there is one.
pub open spec fn partition_predicate_of(filters: Seq<FieldCondition>, column: Seq<char>) -> Option<
    int,
> {
    filters.map_values(|filter: FieldCondition| filter.field).index_of_first(column)
}

/// The files to scan, given what the index holds for a collection: its
/// partition columns and its file list. The first partition column decides;
/// the first predicate on it prunes the file list; each file left is joined
/// to the root.
pub open spec fn prepared(
    root: Seq<char>,
    partition_columns: Seq<Seq<char>>,
    files: Seq<Seq<char>>,
    filters: Seq<FieldCondition>,
) -> Result<Seq<Seq<char>>, RetrievalError> {
    if partition_columns.len() == 0 {
        Err(RetrievalError::NoPartitionColumn)
    } else {
        match partition_predicate_of(filters, partition_columns[0]) {
            None => Err(RetrievalError::MissingPartitionPredicate),
            Some(at) => match prune_outcome(files, filters[at]) {
                Ok(kept) => Ok(kept.map_values(|path: Seq<char>| joined(root, path))),
                Err(error) => Err(error),
            },
        }
    }
}

/// What a lookup in the index gave, as texts.
pub open spec fn pulled(lookup: Result<Vec<String>, IndexError>) -> Result<
    Seq<Seq<char>>,
    IndexError,
> {
    match lookup {
        Ok(list) => Ok(texts(list@)),
        Err(error) => Err(error),
    }
}

/// The files to scan, given the outcomes of the two lookups. A failed lookup
/// of the partition columns ends the retrieval, then an empty list of them,
/// then a failed lookup of the file list.
pub open spec fn planned(
    root: Seq<char>,
    partition_columns: Result<Seq<Seq<char>>, IndexError>,
    files: Result<Seq<Seq<char>>, IndexError>,
    filters: Seq<FieldCondition>,
) -> Result<Seq<Seq<char>>, RetrievalError> {
    match partition_columns {
        Err(error) => Err(index_failure(error)),
        Ok(columns) => if columns.len() == 0 {
            Err(RetrievalError::NoPartitionColumn)
        } else {
            match files {
                Err(error) => Err(index_failure(error)),
                Ok(list) => prepared(root, columns, list, filters),
            }
        },
    }
}

/// Whether `result` is the outcome `expected`, text for text.
pub open spec fn gives(
    result: Result<Vec<String>, RetrievalError>,
    expected: Result<Seq<Seq<char>>, RetrievalError>,
) -> bool {
    match result {
        Ok(list) => expected == Ok::<_, RetrievalError>(texts(list@)),
        Err(error) => expected == Err::<Seq<Seq<char>>, _>(error),
    }
}

/// The name of the collection that holds a resource of a database.
pub fn collection_name(db_name: &String, resource_name: &String) -> (name: String)
    ensures
        name@ == collection_name_of(db_name@, resource_name@),
{
    let mut name = db_name.clone();
    name.append("/");
    name.append(resource_name.as_str());
    name
}

/// The index key of a collection's partition columns.
pub fn partition_columns_key(collection: &String) -> (key: String)
    ensures
        key@ == partition_columns_key_of(collection@),
{
    let mut key = collection.clone();
    key.append("/partition_columns");
    key
}

/// The index key of a collection's file list.
pub fn files_key(collection: &String) -> (key: String)
    ensures
        key@ == files_key_of(collection@),
{
    let mut key = collection.clone();
    key.append("/files");
    key
}

/// Joins a relative path to a root.
pub fn join_path(root: &String, relative: &String) -> (path: String)
    ensures
        path@ == joined(root@, relative@),
{
    let relative_len = relative.as_str().unicode_len();
    if relative_len > 0 && relative.as_str().get_char(0) == '/' {
        return relative.clone();
    }
    let root_len = root.as_str().unicode_len();
    let mut path = root.clone();
    if root_len > 0 && root.as_str().get_char(root_len - 1) != '/' {
        proof {
            reveal_strlit("/");
            assert("/"@ =~= seq!['/']);
        }
        path.append("/");
    }
    path.append(relative.as_str());
    path
}

/// Finds the first predicate on `column`.
pub fn partition_predicate(filters: &Vec<DataFilter<String>>, column: &String) -> (found: Option<
    usize,
>)
    ensures
        match found {
            Some(at) => {
                &&& at < filters@.len()
                &&& partition_predicate_of(conditions(filters@), column@) == Some(at as int)
            },
            None => partition_predicate_of(conditions(filters@), column@) is None,
        },
{
    let ghost fields = conditions(filters@).map_values(|filter: FieldCondition| filter.field);
    let mut at: usize = 0;
    while at < filters.len()
        invariant
            at <= filters.len(),
            fields == conditions(filters@).map_values(|filter: FieldCondition| filter.field),
            forall|j: int| 0 <= j < at ==> fields[j] != column@,
        decreases filters.len() - at,
    {
        assert(fields[at as int] == filters@[at as int].field@);
        if filters[at].field == *column {
            proof {
                lemma_first_occurrence(fields, column@, at as int);
            }
            return Some(at);
        }
        at += 1;
    }
    proof {
        lemma_no_occurrence(fields, column@);
    }
    None
}

/// Lists the files to scan for a collection, from its partition columns and
/// its file list as the index holds them. The retrieval fails where the
/// index names no partition column, where no predicate is on the first
/// partition column, and where a path of the file list is malformed.
pub fn prepare_files(
    table_path: &String,
    partition_columns: &Vec<String>,
    all_files: Vec<String>,
    filters: &Vec<DataFilter<String>>,
) -> (result: Result<Vec<String>, RetrievalError>)
    ensures
        gives(
            result,
            prepared(
                table_path@,
                texts(partition_columns@),
                texts(all_files@),
                conditions(filters@),
            ),
        ),
{
    if partition_columns.len() == 0 {
        return Err(RetrievalError::NoPartitionColumn);
    }
    let at = match partition_predicate(filters, &partition_columns[0]) {
        Some(at) => at,
        None => {
            return Err(RetrievalError::MissingPartitionPredicate);
        },
    };
    assert(conditions(filters@)[at as int] == filters@[at as int]@);
    let kept = match apply_partition_filter(all_files, &filters[at]) {
        Ok(kept) => kept,
        Err(error) => {
            return Err(error);
        },
    };
    let ghost to_scan = texts(kept@).map_values(|path: Seq<char>| joined(table_path@, path));
    let mut files: Vec<String> = Vec::new();
    let mut i: usize = 0;
    while i < kept.len()
        invariant
            i <= kept.len(),
            to_scan == texts(kept@).map_values(|path: Seq<char>| joined(table_path@, path)),
            texts(files@) == to_scan.take(i as int),
        decreases kept.len() - i,
    {
        let ghost files_before = files@;
        files.push(join_path(table_path, &kept[i]));
        assert(texts(files@) =~= texts(files_before).push(to_scan[i as int]));
        assert(to_scan.take(i as int + 1) =~= to_scan.take(i as int).push(to_scan[i as int]));
        i += 1;
    }
    assert(to_scan.take(i as int) =~= to_scan);
    Ok(files)
}

/// Lists the files to scan for a collection, from the outcomes of the two
/// index lookups. A failed lookup ends the retrieval with the failure that
/// the index reported.
pub fn plan_retrieval(
    table_path: &String,
    partition_columns: Result<Vec<String>, IndexError>,
    all_files: Result<Vec<String>, IndexError>,
    filters: &Vec<DataFilter<String>>,
) -> (result: Result<Vec<String>, RetrievalError>)
    ensures
        gives(
            result,
            planned(
                table_path@,
                pulled(partition_columns),
                pulled(all_files),
                conditions(filters@),
            ),
        ),
{
    let columns = match partition_columns {
        Ok(columns) => columns,
        Err(error) => {
            return Err(RetrievalError::from_index(error));
        },
    };
    if columns.len() == 0 {
        return Err(RetrievalError::NoPartitionColumn);
    }
    match all_files {
        Ok(files) => prepare_files(table_path, &columns, files, filters),
        Err(error) => Err(RetrievalError::from_index(error)),
    }
}

/// The items of a list of waves, wave after wave.
pub open spec fn in_sequence<T>(waves: Seq<Vec<T>>) -> Seq<T> {
    waves.map_values(|wave: Vec<T>| wave@).flatten()
}

/// Cuts a list into waves of at most `limit` items, to be worked on one wave
/// after the other: every wave but the last holds exactly `limit` items, the
/// last holds what is left, and no wave is empty. The items keep their
/// order. A limit of zero admits no item, so there is nothing to return.
pub fn scan_waves<T>(items: Vec<T>, limit: usize) -> (result: Option<Vec<Vec<T>>>)
    ensures
        result is None <==> limit == 0,
        result matches Some(waves) ==> in_sequence(waves@) == items@,
        result matches Some(waves) ==> forall|k: int|
            0 <= k < waves@.len() ==> 0 < (#[trigger] waves@[k])@.len() <= limit,
        result matches Some(waves) ==> forall|k: int|
            0 <= k < waves@.len() - 1 ==> (#[trigger] waves@[k])@.len() == limit,
{
    if limit == 0 {
        return None;
    }
    let mut waves: Vec<Vec<T>> = Vec::new();
    let mut current: Vec<T> = Vec::new();
    proof {
        assert(waves@.map_values(|wave: Vec<T>| wave@) =~= Seq::<Seq<T>>::empty());
        assert(in_sequence(waves@) + current@ =~= items@.take(0));
    }
    for item in rest: items
        invariant
            rest.seq() == items@,
            limit > 0,
            current@.len() < limit,
            in_sequence(waves@) + current@ == items@.take(rest.index() as int),
            forall|k: int| 0 <= k < waves@.len() ==> (#[trigger] waves@[k])@.len() == limit,
    {
        let ghost done = in_sequence(waves@);
        let ghost current_before = current@;
        current.push(item);
        proof {
            assert(items@.take(rest.index() + 1) =~= items@.take(rest.index() as int).push(item));
            assert(done + current@ =~= (done + current_before).push(item));
        }
        if current.len() == limit {
            let ghost views = waves@.map_values(|wave: Vec<T>| wave@);
            let ghost full = current@;
            waves.push(current);
            current = Vec::new();
            proof {
                assert(waves@.map_values(|wave: Vec<T>| wave@) =~= views.push(full));
                views.lemma_flatten_push(full);
                assert(in_sequence(waves@) + current@ =~= done + full);
            }
        }
    }
    assert(items@.take(items@.len() as int) =~= items@);
    if current.len() > 0 {
        let ghost views = waves@.map_values(|wave: Vec<T>| wave@);
        let ghost last = current@;
        waves.push(current);
        proof {
            assert(waves@.map_values(|wave: Vec<T>| wave@) =~= views.push(last));
            views.lemma_flatten_push(last);
        }
    } else {
        assert(in_sequence(waves@) + current@ =~= in_sequence(waves@));
    }
    Some(waves)
}

/// Planning twice from the same index contents and the same predicates
/// gives the same result: the same files in the same order, or the same
/// failure.
pub proof fn lemma_plan_repeatable(
    expected: Result<Seq<Seq<char>>, RetrievalError>,
    first: Result<Vec<String>, RetrievalError>,
    second: Result<Vec<String>, RetrievalError>,
)
    requires
        gives(first, expected),
        gives(second, expected),
    ensures
        match (first, second) {
            (Ok(a), Ok(b)) => texts(a@) == texts(b@),
            (Err(a), Err(b)) => a == b,
            _ => false,
        },
{
}

} // verus!

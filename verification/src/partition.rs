//! Partition pruning: choosing, from their paths alone, the files a predicate
//! on the partition column can match.

use crate::error::RetrievalError;
use crate::predicate::{evaluate_partition, partition_accepts, DataFilter, FieldCondition};
use crate::sequences::{
    lemma_filter_agree, lemma_filter_membership, lemma_filter_refines, lemma_first_occurrence,
    lemma_no_occurrence,
};
use crate::text::{lemma_substring_reflexive, split_at_first, split_once_at, texts};
use vstd::prelude::*;

verus! {

/// A relative file path of the shape `<key>=<value>/<file_name>`, taken apart.
#[derive(Clone, Debug)]
pub struct PartitionedFilePath {
    pub key: String,
    pub value: String,
    pub file_name: String,
}

/// Mathematical form of a `PartitionedFilePath`.
pub ghost struct PathParts {
    pub key: Seq<char>,
    pub value: Seq<char>,
    pub file_name: Seq<char>,
}

impl View for PartitionedFilePath {
    type V = PathParts;

    open spec fn view(&self) -> PathParts {
        PathParts { key: self.key@, value: self.value@, file_name: self.file_name@ }
    }
}

/// The parts of a path: the partition segment ends at the first `/`, and the
/// key ends at the first `=` of that segment. `None` where either is missing.
pub open spec fn path_parts(path: Seq<char>) -> Option<PathParts> {
    match split_at_first(path, '/') {
        Some((segment, file_name)) => match split_at_first(segment, '=') {
            Some((key, value)) => Some(PathParts { key, value, file_name }),
            None => None,
        },
        None => None,
    }
}

/// Whether a predicate selects a file with these parts: the predicate must
/// be on the file's partition key and accept its partition value.
pub open spec fn parts_selected(filter: FieldCondition, parts: PathParts) -> bool {
    parts.key == filter.field && partition_accepts(filter.value, parts.value)
}

/// Whether a predicate selects the file at `path`.
pub open spec fn path_selected(filter: FieldCondition, path: Seq<char>) -> bool {
    match path_parts(path) {
        Some(parts) => parts_selected(filter, parts),
        None => false,
    }
}

/// The paths a predicate selects, in the order of the list.
pub open spec fn pruned(paths: Seq<Seq<char>>, filter: FieldCondition) -> Seq<Seq<char>> {
    paths.filter(|path: Seq<char>| path_selected(filter, path))
}

/// The position of the first path without the partitioned shape, if any.
pub open spec fn first_malformed(paths: Seq<Seq<char>>) -> Option<int> {
    paths.map_values(|path: Seq<char>| path_parts(path) is None).index_of_first(true)
}

/// What pruning a file list with a predicate gives: the selected paths, or
/// the failure that the first malformed path causes.
pub open spec fn prune_outcome(paths: Seq<Seq<char>>, filter: FieldCondition) -> Result<
    Seq<Seq<char>>,
    RetrievalError,
> {
    match first_malformed(paths) {
        Some(index) => Err(RetrievalError::MalformedPartitionPath { index: index as usize }),
        None => Ok(pruned(paths, filter)),
    }
}

impl PartitionedFilePath {
    /// Takes a relative path apart, or returns `None` where it does not have
    /// the partitioned shape.
    pub fn parse(path: &String) -> (parsed: Option<PartitionedFilePath>)
        ensures
            match parsed {
                Some(p) => path_parts(path@) == Some(p@),
                None => path_parts(path@) is None,
            },
    {
        match split_once_at(path, '/') {
            Some((segment, file_name)) => match split_once_at(&segment, '=') {
                Some((key, value)) => Some(PartitionedFilePath { key, value, file_name }),
                None => None,
            },
            None => None,
        }
    }

    /// Whether `filter` selects the file this path names.
    pub fn selected_by(&self, filter: &DataFilter<String>) -> (selected: bool)
        ensures
            selected == parts_selected(filter@, self@),
    {
        if self.key == filter.field {
            evaluate_partition(&filter.value, &self.value)
        } else {
            false
        }
    }
}

/// Prunes a collection's file list with the predicate on its partition
/// column. The files the predicate selects are returned in the order of the
/// list. A path without the partitioned shape fails the whole request, and
/// the error names the first such path.
pub fn apply_partition_filter(files: Vec<String>, filter: &DataFilter<String>) -> (result: Result<
    Vec<String>,
    RetrievalError,
>)
    ensures
        match result {
            Ok(kept) => prune_outcome(texts(files@), filter@) == Ok::<_, RetrievalError>(
                texts(kept@),
            ),
            Err(error) => prune_outcome(texts(files@), filter@) == Err::<Seq<Seq<char>>, _>(error),
        },
{
    let ghost paths = texts(files@);
    let ghost flags = paths.map_values(|path: Seq<char>| path_parts(path) is None);
    let ghost selects = |path: Seq<char>| path_selected(filter@, path);
    let mut kept: Vec<String> = Vec::new();
    let mut i: usize = 0;
    proof {
        assert(paths.take(0) =~= Seq::<Seq<char>>::empty());
        assert(texts(kept@) =~= Seq::<Seq<char>>::empty());
    }
    while i < files.len()
        invariant
            i <= files.len(),
            paths == texts(files@),
            flags == paths.map_values(|path: Seq<char>| path_parts(path) is None),
            selects == (|path: Seq<char>| path_selected(filter@, path)),
            forall|j: int| 0 <= j < i ==> flags[j] != true,
            texts(kept@) == paths.take(i as int).filter(selects),
        decreases files.len() - i,
    {
        let ghost before = paths.take(i as int);
        proof {
            assert(paths.take(i as int + 1) =~= before.push(paths[i as int]));
            before.lemma_filter_push(paths[i as int], selects);
        }
        match PartitionedFilePath::parse(&files[i]) {
            Some(parts) => {
                if parts.selected_by(filter) {
                    let ghost kept_before = kept@;
                    kept.push(files[i].clone());
                    assert(texts(kept@) =~= texts(kept_before).push(paths[i as int]));
                }
            },
            None => {
                proof {
                    lemma_first_occurrence(flags, true, i as int);
                }
                return Err(RetrievalError::MalformedPartitionPath { index: i });
            },
        }
        i += 1;
    }
    proof {
        assert(paths.take(i as int) =~= paths);
        lemma_no_occurrence(flags, true);
    }
    Ok(kept)
}

/// Whether `path` has the partitioned shape with this key and this value.
pub open spec fn has_partition(path: Seq<char>, key: Seq<char>, value: Seq<char>) -> bool {
    match path_parts(path) {
        Some(parts) => parts.key == key && parts.value == value,
        None => false,
    }
}

/// Pruning with `Equal(v)` on the partition column keeps exactly the files
/// whose partition key is that column and whose partition value is `v`, in
/// the order of the list, and no others.
pub proof fn lemma_equal_keeps_exactly_the_value(
    paths: Seq<Seq<char>>,
    field: Seq<char>,
    v: Seq<char>,
)
    ensures
        pruned(paths, FieldCondition::equal(field, v)) == paths.filter(
            |path: Seq<char>| has_partition(path, field, v),
        ),
        forall|path: Seq<char>|
            #[trigger] pruned(paths, FieldCondition::equal(field, v)).contains(path) <==> (
            paths.contains(path) && has_partition(path, field, v)),
        first_malformed(paths) is None ==> prune_outcome(paths, FieldCondition::equal(field, v))
            == Ok::<_, RetrievalError>(
            paths.filter(|path: Seq<char>| has_partition(path, field, v)),
        ),
{
    let filter = FieldCondition::equal(field, v);
    let selects = |path: Seq<char>| path_selected(filter, path);
    let matches = |path: Seq<char>| has_partition(path, field, v);
    lemma_filter_agree(paths, selects, matches);
    assert forall|path: Seq<char>|
        #[trigger] pruned(paths, filter).contains(path) <==> (paths.contains(path)
            && has_partition(path, field, v)) by {
        lemma_filter_membership(paths, matches, path);
    }
}

/// Whatever `Equal(v)` selects, `Like(v)` selects too: pruning with `Like(v)`
/// keeps every file that pruning with `Equal(v)` keeps, and pruning its
/// result with `Equal(v)` gives the same files as pruning with `Equal(v)` at
/// once.
pub proof fn lemma_like_keeps_what_equal_keeps(
    paths: Seq<Seq<char>>,
    field: Seq<char>,
    v: Seq<char>,
)
    ensures
        forall|path: Seq<char>| #[trigger]
            path_selected(FieldCondition::equal(field, v), path) ==> path_selected(
                FieldCondition::like(field, v),
                path,
            ),
        forall|path: Seq<char>|
            #[trigger] pruned(paths, FieldCondition::equal(field, v)).contains(path) ==> pruned(
                paths,
                FieldCondition::like(field, v),
            ).contains(path),
        pruned(pruned(paths, FieldCondition::like(field, v)), FieldCondition::equal(field, v))
            == pruned(paths, FieldCondition::equal(field, v)),
{
    let equal = FieldCondition::equal(field, v);
    let like = FieldCondition::like(field, v);
    let by_equal = |path: Seq<char>| path_selected(equal, path);
    let by_like = |path: Seq<char>| path_selected(like, path);
    assert forall|path: Seq<char>| #[trigger] path_selected(equal, path) implies path_selected(
        like,
        path,
    ) by {
        lemma_substring_reflexive(v);
    }
    assert forall|path: Seq<char>| #[trigger]
        pruned(paths, equal).contains(path) implies pruned(paths, like).contains(path) by {
        lemma_filter_membership(paths, by_equal, path);
        lemma_filter_membership(paths, by_like, path);
    }
    lemma_filter_refines(paths, by_like, by_equal);
}

/// Pruning a pruned list again with the same predicate changes nothing.
pub proof fn lemma_pruning_is_idempotent(paths: Seq<Seq<char>>, filter: FieldCondition)
    ensures
        pruned(pruned(paths, filter), filter) == pruned(paths, filter),
{
    let selects = |path: Seq<char>| path_selected(filter, path);
    lemma_filter_refines(paths, selects, selects);
}

/// Pruning with `In(vs)` keeps the union of what pruning with `Equal(v)`
/// keeps over the values `v` of `vs`.
pub proof fn lemma_in_keeps_union_of_equal(
    paths: Seq<Seq<char>>,
    field: Seq<char>,
    vs: Seq<Seq<char>>,
)
    ensures
        forall|path: Seq<char>|
            #[trigger] pruned(paths, FieldCondition::one_of(field, vs)).contains(path) <==> (
            exists|k: int|
                0 <= k < vs.len() && #[trigger] pruned(
                    paths,
                    FieldCondition::equal(field, vs[k]),
                ).contains(path)),
{
    let any = FieldCondition::one_of(field, vs);
    let by_any = |path: Seq<char>| path_selected(any, path);
    assert forall|path: Seq<char>|
        #[trigger] pruned(paths, any).contains(path) <==> (exists|k: int|
            0 <= k < vs.len() && #[trigger] pruned(
                paths,
                FieldCondition::equal(field, vs[k]),
            ).contains(path)) by {
        lemma_filter_membership(paths, by_any, path);
        if pruned(paths, any).contains(path) {
            let value = path_parts(path).unwrap().value;
            let k = choose|k: int| 0 <= k < vs.len() && vs[k] == value;
            let equal = FieldCondition::equal(field, vs[k]);
            lemma_filter_membership(paths, |p: Seq<char>| path_selected(equal, p), path);
            assert(pruned(paths, FieldCondition::equal(field, vs[k])).contains(path));
        }
        if exists|k: int|
            0 <= k < vs.len() && #[trigger] pruned(
                paths,
                FieldCondition::equal(field, vs[k]),
            ).contains(path) {
            let k = choose|k: int|
                0 <= k < vs.len() && #[trigger] pruned(
                    paths,
                    FieldCondition::equal(field, vs[k]),
                ).contains(path);
            let equal = FieldCondition::equal(field, vs[k]);
            lemma_filter_membership(paths, |p: Seq<char>| path_selected(equal, p), path);
            assert(vs.contains(vs[k]));
        }
    }
}

} // verus!

//! Text primitives the predicates are built on: splitting at the first
//! separator and substring containment.

use crate::sequences::lemma_first_occurrence;
use itertools::Itertools;
use vstd::prelude::*;

verus! {

/// `needle` occurs in `hay` starting at position `at`.
pub open spec fn occurs_at(needle: Seq<char>, hay: Seq<char>, at: int) -> bool {
    &&& 0 <= at
    &&& at + needle.len() <= hay.len()
    &&& hay.subrange(at, at + needle.len()) == needle
}

/// `needle` occurs somewhere in `hay` as a contiguous run of characters.
pub open spec fn is_substring(needle: Seq<char>, hay: Seq<char>) -> bool {
    exists|at: int| occurs_at(needle, hay, at)
}

/// The text before and the text after the first `sep` in `s`, or `None` when
/// `s` holds no `sep`.
pub open spec fn split_at_first(s: Seq<char>, sep: char) -> Option<(Seq<char>, Seq<char>)> {
    match s.index_of_first(sep) {
        Some(i) => Some((s.subrange(0, i), s.subrange(i + 1, s.len() as int))),
        None => None,
    }
}

/// The character sequences of a list of strings, in order.
pub open spec fn texts(list: Seq<String>) -> Seq<Seq<char>> {
    list.map_values(|s: String| s@)
}

/// A text always contains itself.
pub proof fn lemma_substring_reflexive(s: Seq<char>)
    ensures
        is_substring(s, s),
{
    assert(s.subrange(0, s.len() as int) =~= s);
    assert(occurs_at(s, s, 0));
}

/// Any decomposition `head + [sep] + tail` in which `head` is free of `sep`
/// is the split at the first `sep`.
pub proof fn lemma_split_at_first_unique(s: Seq<char>, sep: char, head: Seq<char>, tail: Seq<char>)
    requires
        s == head + seq![sep] + tail,
        !head.contains(sep),
    ensures
        split_at_first(s, sep) == Some((head, tail)),
{
    let n = head.len() as int;
    assert(s[n] == sep);
    assert forall|j: int| 0 <= j < n implies s[j] != sep by {
        assert(head[j] == s[j]);
    }
    lemma_first_occurrence(s, sep, n);
    assert(s.subrange(0, n) =~= head);
    assert(s.subrange(n + 1, s.len() as int) =~= tail);
}

/// `str::splitn` with a limit of two pieces, each piece copied into a
/// `String`. The standard library documents that the pieces are the
/// substrings between separators and that the last piece allowed by the limit
/// holds the whole remainder: a text without `sep` comes back as one piece,
/// any other as the text before its first `sep` and the text after it.
#[verifier::external_body]
fn splitn_two(s: &String, sep: char) -> (parts: Vec<String>)
    ensures
        !s@.contains(sep) ==> parts@.len() == 1 && parts@[0]@ == s@,
        s@.contains(sep) ==> {
            &&& parts@.len() == 2
            &&& !parts@[0]@.contains(sep)
            &&& parts@[0]@ + seq![sep] + parts@[1]@ == s@
        },
{
    s.splitn(2, sep).map(String::from).collect()
}

/// `Itertools::collect_tuple` at tuple size two: the items come back as a
/// pair exactly when there are two of them, in their order; any other count
/// gives `None`.
#[verifier::external_body]
fn collect_pair(parts: Vec<String>) -> (pair: Option<(String, String)>)
    ensures
        parts@.len() == 2 ==> pair == Some((parts@[0], parts@[1])),
        parts@.len() != 2 ==> pair is None,
{
    parts.into_iter().collect_tuple()
}

/// `str::contains` with a string pattern. The standard library documents
/// that it answers whether the pattern matches a sub-slice of the text, and
/// a string pattern matches where its own text stands. Both texts are UTF-8,
/// in which the bytes of one text stand within another only from one
/// character boundary to another, so the answer is stated over characters.
#[verifier::external_body]
pub(crate) fn contains_text(hay: &String, needle: &String) -> (found: bool)
    ensures
        found == is_substring(needle@, hay@),
{
    hay.contains(needle.as_str())
}

/// Whether `item` equals one of the strings of `list`.
pub fn list_contains(list: &Vec<String>, item: &String) -> (found: bool)
    ensures
        found == texts(list@).contains(item@),
{
    let mut i: usize = 0;
    while i < list.len()
        invariant
            i <= list.len(),
            forall|j: int| 0 <= j < i ==> texts(list@)[j] != item@,
        decreases list.len() - i,
    {
        if list[i] == *item {
            assert(texts(list@)[i as int] == item@);
            return true;
        }
        i += 1;
    }
    false
}

/// Splits `s` once, at its first `sep`.
pub fn split_once_at(s: &String, sep: char) -> (pair: Option<(String, String)>)
    ensures
        match pair {
            Some((head, tail)) => split_at_first(s@, sep) == Some((head@, tail@)),
            None => split_at_first(s@, sep) is None,
        },
{
    let parts = splitn_two(s, sep);
    let pair = collect_pair(parts);
    proof {
        s@.index_of_first_ensures(sep);
        if s@.contains(sep) {
            lemma_split_at_first_unique(s@, sep, parts@[0]@, parts@[1]@);
        }
    }
    pair
}

} // verus!

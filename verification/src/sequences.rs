//! Facts about sequences that the contracts of this crate rest on.

use vstd::prelude::*;

verus! {

/// The first occurrence of `x` in `s` is at `i` when `x` stands at `i` and
/// nowhere before.
pub proof fn lemma_first_occurrence<A>(s: Seq<A>, x: A, i: int)
    requires
        0 <= i < s.len(),
        s[i] == x,
        forall|j: int| 0 <= j < i ==> s[j] != x,
    ensures
        s.index_of_first(x) == Some(i),
{
    assert(s.contains(x));
    s.index_of_first_ensures(x);
}

/// A sequence that holds `x` nowhere has no first occurrence of it.
pub proof fn lemma_no_occurrence<A>(s: Seq<A>, x: A)
    requires
        forall|j: int| 0 <= j < s.len() ==> s[j] != x,
    ensures
        s.index_of_first(x) is None,
{
    s.index_of_first_ensures(x);
}

/// Two tests that agree on every element of a sequence filter it alike.
pub proof fn lemma_filter_agree<A>(s: Seq<A>, p: spec_fn(A) -> bool, q: spec_fn(A) -> bool)
    requires
        forall|i: int| 0 <= i < s.len() ==> p(s[i]) == q(s[i]),
    ensures
        s.filter(p) == s.filter(q),
    decreases s.len(),
{
    reveal(Seq::filter);
    if s.len() > 0 {
        lemma_filter_agree(s.drop_last(), p, q);
    }
}

/// Filtering by a test and then by a stronger one is filtering by the
/// stronger one alone.
pub proof fn lemma_filter_refines<A>(s: Seq<A>, p: spec_fn(A) -> bool, q: spec_fn(A) -> bool)
    requires
        forall|i: int| 0 <= i < s.len() && q(s[i]) ==> p(s[i]),
    ensures
        s.filter(p).filter(q) == s.filter(q),
    decreases s.len(),
{
    reveal(Seq::filter);
    if s.len() > 0 {
        let rest = s.drop_last();
        lemma_filter_refines(rest, p, q);
        if p(s.last()) {
            rest.filter(p).lemma_filter_push(s.last(), q);
            assert(s.filter(p) =~= rest.filter(p).push(s.last()));
        }
    } else {
        assert(s.filter(p) =~= Seq::<A>::empty());
    }
}

/// An element belongs to a filtered sequence exactly when it belongs to the
/// sequence and passes the test.
pub proof fn lemma_filter_membership<A>(s: Seq<A>, p: spec_fn(A) -> bool, x: A)
    ensures
        s.filter(p).contains(x) <==> s.contains(x) && p(x),
{
    if s.filter(p).contains(x) {
        s.lemma_filter_contains_rev(p, x);
    }
    if s.contains(x) && p(x) {
        let i = choose|i: int| 0 <= i < s.len() && s[i] == x;
        s.lemma_filter_contains(p, i);
    }
}

/// Mapping the elements that a function keeps distributes over
/// concatenation.
pub proof fn lemma_filter_map_concat<A, B>(a: Seq<A>, b: Seq<A>, f: spec_fn(A) -> Option<B>)
    ensures
        (a + b).filter_map(f) == a.filter_map(f) + b.filter_map(f),
    decreases b.len(),
{
    if b.len() == 0 {
        assert(a + b =~= a);
        assert(a.filter_map(f) + b.filter_map(f) =~= a.filter_map(f));
    } else {
        assert((a + b).drop_last() =~= a + b.drop_last());
        lemma_filter_map_concat(a, b.drop_last(), f);
        match f(b.last()) {
            Some(y) => {
                assert(a.filter_map(f) + (b.drop_last().filter_map(f) + seq![y]) =~= (a.filter_map(
                    f,
                ) + b.drop_last().filter_map(f)) + seq![y]);
            },
            None => {},
        }
    }
}

} // verus!

//! Facts about filtered sequences that the proofs of the store and of the
//! level share.

use vstd::prelude::*;

verus! {

/// Filtering one element more: it joins the result exactly if the predicate
/// holds of it.
pub proof fn lemma_filter_step<A>(s: Seq<A>, p: spec_fn(A) -> bool, i: int)
    requires
        0 <= i < s.len(),
    ensures
        s.take(i + 1).filter(p) == if p(s[i]) {
            s.take(i).filter(p).push(s[i])
        } else {
            s.take(i).filter(p)
        },
{
    assert(s.take(i + 1) =~= s.take(i).push(s[i]));
    s.take(i).lemma_filter_push(s[i], p);
}

/// No element passes a filter whose predicate holds of none.
pub proof fn lemma_filter_none<A>(s: Seq<A>, p: spec_fn(A) -> bool)
    requires
        forall|i: int| 0 <= i < s.len() ==> !p(s[i]),
    ensures
        s.filter(p) == Seq::<A>::empty(),
    decreases s.len(),
{
    reveal(Seq::filter);
    if s.len() > 0 {
        lemma_filter_none(s.drop_last(), p);
    }
}

/// The first element of a filtered sequence is the first element of the
/// sequence of which the predicate holds.
pub proof fn lemma_filter_first<A>(s: Seq<A>, p: spec_fn(A) -> bool, i: int)
    requires
        0 <= i < s.len(),
        p(s[i]),
        forall|j: int| 0 <= j < i ==> !p(s[j]),
    ensures
        s.filter(p).len() > 0,
        s.filter(p)[0] == s[i],
    decreases s.len(),
{
    reveal(Seq::filter);
    let front = s.drop_last();
    if i == s.len() - 1 {
        lemma_filter_none(front, p);
    } else {
        lemma_filter_first(front, p, i);
    }
}

/// A filter whose predicate holds of every element changes nothing.
pub proof fn lemma_filter_all<A>(s: Seq<A>, p: spec_fn(A) -> bool)
    requires
        forall|i: int| 0 <= i < s.len() ==> p(s[i]),
    ensures
        s.filter(p) == s,
    decreases s.len(),
{
    reveal(Seq::filter);
    if s.len() > 0 {
        lemma_filter_all(s.drop_last(), p);
        assert(s.drop_last().push(s.last()) =~= s);
    }
}

/// Where nothing passes a filter, the predicate holds of no element.
pub proof fn lemma_filter_empty<A>(s: Seq<A>, p: spec_fn(A) -> bool)
    requires
        s.filter(p).len() == 0,
    ensures
        forall|i: int| 0 <= i < s.len() ==> !p(s[i]),
{
    assert forall|i: int| 0 <= i < s.len() implies !p(s[i]) by {
        if p(s[i]) {
            s.lemma_filter_contains(p, i);
        }
    }
}

/// Every element that passes a filter is an element of the sequence, and
/// the predicate holds of it.
pub proof fn lemma_filter_member<A>(s: Seq<A>, p: spec_fn(A) -> bool, k: int)
    requires
        0 <= k < s.filter(p).len(),
    ensures
        p(s.filter(p)[k]),
        s.contains(s.filter(p)[k]),
{
    s.lemma_filter_pred(p, k);
    assert(s.filter(p).contains(s.filter(p)[k]));
    s.lemma_filter_contains_rev(p, s.filter(p)[k]);
}

/// A sequence that contains nothing is empty.
pub proof fn lemma_no_member<A>(s: Seq<A>)
    requires
        forall|x: A| !s.contains(x),
    ensures
        s == Seq::<A>::empty(),
{
    if s.len() > 0 {
        assert(s.contains(s[0]));
    }
    assert(s =~= Seq::<A>::empty());
}

} // verus!

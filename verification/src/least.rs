//! The least index with a property: the vocabulary of "first match wins".

use vstd::prelude::*;

verus! {

/// `i` lies in `lo..hi`, has the property, and no index of `lo..i` has it.
pub open spec fn is_least(lo: int, hi: int, p: spec_fn(int) -> bool, i: int) -> bool {
    &&& lo <= i < hi
    &&& p(i)
    &&& forall|j: int| lo <= j < i ==> !#[trigger] p(j)
}

/// The least index of `lo..hi` with the property, if any index has it.
pub open spec fn least(lo: int, hi: int, p: spec_fn(int) -> bool) -> Option<int> {
    if exists|i: int| is_least(lo, hi, p, i) {
        Some(choose|i: int| is_least(lo, hi, p, i))
    } else {
        None
    }
}

/// Only one index can be the least.
pub proof fn lemma_least_is(lo: int, hi: int, p: spec_fn(int) -> bool, i: int)
    requires
        is_least(lo, hi, p, i),
    ensures
        least(lo, hi, p) == Some(i),
{
    let k = choose|k: int| is_least(lo, hi, p, k);
    assert(is_least(lo, hi, p, k));
    if k < i {
        assert(!p(k));
    } else if i < k {
        assert(!p(i));
    }
}

/// Where no index has the property there is no least one, and the other way round.
pub proof fn lemma_least_none(lo: int, hi: int, p: spec_fn(int) -> bool)
    ensures
        least(lo, hi, p) is None <==> forall|j: int| lo <= j < hi ==> !#[trigger] p(j),
{
    if forall|j: int| lo <= j < hi ==> !#[trigger] p(j) {
        assert forall|i: int| !is_least(lo, hi, p, i) by {
            if lo <= i < hi {
                assert(!p(i));
            }
        }
    } else {
        let j = choose|j: int| lo <= j < hi && #[trigger] p(j);
        lemma_least_exists(lo, hi, p, j);
    }
}

/// An index with the property has a least one at or before it.
pub proof fn lemma_least_exists(lo: int, hi: int, p: spec_fn(int) -> bool, j: int)
    requires
        lo <= j < hi,
        p(j),
    ensures
        least(lo, hi, p) matches Some(i) && i <= j && is_least(lo, hi, p, i),
    decreases j - lo,
{
    if forall|k: int| lo <= k < j ==> !#[trigger] p(k) {
        assert(is_least(lo, hi, p, j));
        lemma_least_is(lo, hi, p, j);
    } else {
        let k = choose|k: int| lo <= k < j && #[trigger] p(k);
        lemma_least_exists(lo, hi, p, k);
    }
}

/// What `least` returns is the least index.
pub proof fn lemma_least_some(lo: int, hi: int, p: spec_fn(int) -> bool)
    ensures
        least(lo, hi, p) matches Some(i) ==> is_least(lo, hi, p, i),
{
}

/// Growing the range by one index keeps an earlier match and else tests the new index.
pub proof fn lemma_least_step(lo: int, hi: int, p: spec_fn(int) -> bool)
    requires
        lo <= hi,
    ensures
        least(lo, hi + 1, p) == match least(lo, hi, p) {
            Some(i) => Some(i),
            None => if p(hi) {
                Some(hi)
            } else {
                None
            },
        },
{
    lemma_least_none(lo, hi, p);
    match least(lo, hi, p) {
        Some(i) => {
            assert(is_least(lo, hi + 1, p, i));
            lemma_least_is(lo, hi + 1, p, i);
        },
        None => {
            if p(hi) {
                assert(is_least(lo, hi + 1, p, hi));
                lemma_least_is(lo, hi + 1, p, hi);
            } else {
                lemma_least_none(lo, hi + 1, p);
            }
        },
    }
}

} // verus!

//! The first and the last index at which a property holds.

use vstd::prelude::*;

verus! {

/// `k` is the least index from `0` up to `bound` at which `p` holds, or
/// `bound` itself where `p` holds at none of them.
pub open spec fn is_first_index(p: spec_fn(int) -> bool, bound: int, k: int) -> bool {
    &&& 0 <= k <= bound
    &&& forall|i: int| 0 <= i < k ==> !#[trigger] p(i)
    &&& k < bound ==> p(k)
}

/// The least index below `bound` at which `p` holds, or `bound` where there
/// is none.
pub open spec fn first_index(p: spec_fn(int) -> bool, bound: int) -> int {
    choose|k: int| is_first_index(p, bound, k)
}

/// `k` is the greatest index below `bound` at which `p` holds, or `0` where
/// `p` holds at none of them.
pub open spec fn is_last_index(p: spec_fn(int) -> bool, bound: int, k: int) -> bool {
    &&& 0 <= k
    &&& k < bound || k == 0
    &&& forall|i: int| k < i < bound ==> !#[trigger] p(i)
    &&& k > 0 ==> p(k)
}

/// The greatest index below `bound` at which `p` holds, or `0` where there is
/// none.
pub open spec fn last_index(p: spec_fn(int) -> bool, bound: int) -> int {
    choose|k: int| is_last_index(p, bound, k)
}

/// There is a first index, and `first_index` names it.
pub proof fn lemma_first_index_exists(p: spec_fn(int) -> bool, bound: int)
    requires
        0 <= bound,
    ensures
        is_first_index(p, bound, first_index(p, bound)),
    decreases bound,
{
    if bound == 0 {
        assert(is_first_index(p, bound, 0));
    } else {
        lemma_first_index_exists(p, bound - 1);
        let k = first_index(p, bound - 1);
        if k < bound - 1 {
            assert(is_first_index(p, bound, k));
        } else if p(bound - 1) {
            assert(is_first_index(p, bound, bound - 1));
        } else {
            assert(is_first_index(p, bound, bound));
        }
    }
}

/// There is only one first index.
pub proof fn lemma_first_index_is(p: spec_fn(int) -> bool, bound: int, k: int)
    requires
        is_first_index(p, bound, k),
    ensures
        first_index(p, bound) == k,
{
    let other = first_index(p, bound);
    assert(is_first_index(p, bound, other));
    if other < k {
        assert(!p(other));
    } else if k < other {
        assert(!p(k));
    }
}

/// There is a last index, and `last_index` names it.
pub proof fn lemma_last_index_exists(p: spec_fn(int) -> bool, bound: int)
    ensures
        is_last_index(p, bound, last_index(p, bound)),
    decreases bound,
{
    if bound <= 1 {
        assert(is_last_index(p, bound, 0));
    } else if p(bound - 1) {
        assert(is_last_index(p, bound, bound - 1));
    } else {
        lemma_last_index_exists(p, bound - 1);
        let k = last_index(p, bound - 1);
        assert(is_last_index(p, bound, k));
    }
}

/// There is only one last index.
pub proof fn lemma_last_index_is(p: spec_fn(int) -> bool, bound: int, k: int)
    requires
        is_last_index(p, bound, k),
    ensures
        last_index(p, bound) == k,
{
    let other = last_index(p, bound);
    assert(is_last_index(p, bound, other));
    if other < k {
        assert(!p(k));
    } else if k < other {
        assert(!p(other));
    }
}

/// Two properties that hold at the same indices have the same first and the
/// same last index.
pub proof fn lemma_same_indices(p: spec_fn(int) -> bool, q: spec_fn(int) -> bool, bound: int)
    requires
        0 <= bound,
        forall|i: int|
            #![trigger p(i)]
            #![trigger q(i)]
            0 <= i < bound ==> p(i) == q(i),
    ensures
        first_index(q, bound) == first_index(p, bound),
        last_index(q, bound) == last_index(p, bound),
{
    lemma_first_index_exists(p, bound);
    lemma_first_index_is(q, bound, first_index(p, bound));
    lemma_last_index_exists(p, bound);
    lemma_last_index_is(q, bound, last_index(p, bound));
}

/// Where a property comes to hold at one more index `j`, its first index is
/// `j` if that lies before the old one, and its last index is `j` if that
/// lies behind the old one.
pub proof fn lemma_one_more_index(
    p: spec_fn(int) -> bool,
    q: spec_fn(int) -> bool,
    bound: int,
    j: int,
)
    requires
        0 <= j < bound,
        q(j),
        forall|i: int|
            #![trigger p(i)]
            #![trigger q(i)]
            0 <= i < bound && i != j ==> p(i) == q(i),
    ensures
        first_index(q, bound) == if j < first_index(p, bound) {
            j
        } else {
            first_index(p, bound)
        },
        last_index(q, bound) == if j > last_index(p, bound) {
            j
        } else {
            last_index(p, bound)
        },
{
    lemma_first_index_exists(p, bound);
    let first = first_index(p, bound);
    lemma_first_index_is(q, bound, if j < first { j } else { first });
    lemma_last_index_exists(p, bound);
    let last = last_index(p, bound);
    lemma_last_index_is(q, bound, if j > last { j } else { last });
}

} // verus!

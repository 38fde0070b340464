//! A verified stable ordering of backend indices by per-backend metrics.
//!
//! The sorted selectors (fewest connections, fastest server, the consistent
//! ring) all order positions by some pair of numeric keys, ties broken by
//! the original position. The order is returned as an explicit permutation
//! of indices, which makes the permutation property part of the contract.

use vstd::prelude::*;

verus! {

/// Strict lexicographic order on `(primary, secondary, position)`.
pub open spec fn lex_less(
    p1: u64,
    s1: u64,
    i1: int,
    p2: u64,
    s2: u64,
    i2: int,
) -> bool {
    ||| p1 < p2
    ||| (p1 == p2 && s1 < s2)
    ||| (p1 == p2 && s1 == s2 && i1 < i2)
}

/// The permutation `order` sorts positions by
/// `(primary[i], secondary[i], i)` ascending.
pub open spec fn sorted_order(order: Seq<usize>, primary: Seq<u64>, secondary: Seq<u64>) -> bool {
    forall|k1: int, k2: int|
        0 <= k1 < k2 < order.len() ==> lex_less(
            primary[(#[trigger] order[k1]) as int],
            secondary[order[k1] as int],
            order[k1] as int,
            primary[(#[trigger] order[k2]) as int],
            secondary[order[k2] as int],
            order[k2] as int,
        )
}

/// `order` is a permutation of the positions `0 .. n`.
pub open spec fn is_permutation(order: Seq<usize>, n: int) -> bool {
    &&& order.len() == n
    &&& forall|k: int| 0 <= k < order.len() ==> (#[trigger] order[k]) < n
    &&& forall|j: usize| 0 <= j < n ==> order.contains(j)
}

/// Sorts the positions `0 .. primary.len()` ascending by
/// `(primary[i], secondary[i], i)` and returns them as a permutation.
///
/// Breaking ties by position makes the order total and the sort stable.
pub fn sort_indices(primary: &Vec<u64>, secondary: &Vec<u64>) -> (order: Vec<usize>)
    requires
        primary@.len() == secondary@.len(),
    ensures
        is_permutation(order@, primary@.len() as int),
        sorted_order(order@, primary@, secondary@),
{
    let n = primary.len();
    let mut order: Vec<usize> = Vec::new();
    let mut i: usize = 0;
    while i < n
        invariant
            i <= n,
            n == primary@.len() == secondary@.len(),
            is_permutation(order@, i as int),
            sorted_order(order@, primary@, secondary@),
        decreases n - i,
    {
        // Find the first position whose key is greater than the new key.
        let mut p: usize = 0;
        while p < order.len() && !key_less(
            primary[i],
            secondary[i],
            i,
            primary[order[p]],
            secondary[order[p]],
            order[p],
        )
            invariant
                p <= order@.len(),
                i < n,
                n == primary@.len() == secondary@.len(),
                is_permutation(order@, i as int),
                sorted_order(order@, primary@, secondary@),
                forall|k: int|
                    0 <= k < p ==> !lex_less(
                        primary@[i as int],
                        secondary@[i as int],
                        i as int,
                        primary@[(#[trigger] order@[k]) as int],
                        secondary@[order@[k] as int],
                        order@[k] as int,
                    ),
            decreases order@.len() - p,
        {
            p = p + 1;
        }
        let ghost old_order = order@;
        order.insert(p, i);
        proof {
            assert(order@ == old_order.insert(p as int, i));
            assert forall|j: usize| 0 <= j < i + 1 implies order@.contains(j) by {
                if j == i {
                    assert(order@[p as int] == i);
                } else {
                    assert(old_order.contains(j));
                    let k0 = choose|k0: int| 0 <= k0 < old_order.len() && old_order[k0] == j;
                    if k0 < p {
                        assert(order@[k0] == j);
                    } else {
                        assert(order@[k0 + 1] == j);
                    }
                }
            }
            assert forall|k1: int, k2: int| 0 <= k1 < k2 < order@.len() implies lex_less(
                primary@[(#[trigger] order@[k1]) as int],
                secondary@[order@[k1] as int],
                order@[k1] as int,
                primary@[(#[trigger] order@[k2]) as int],
                secondary@[order@[k2] as int],
                order@[k2] as int,
            ) by {
                let a1 = if k1 < p {
                    old_order[k1]
                } else if k1 == p {
                    i as usize
                } else {
                    old_order[k1 - 1]
                };
                assert(order@[k1] == a1);
                let a2 = if k2 < p {
                    old_order[k2]
                } else if k2 == p {
                    i as usize
                } else {
                    old_order[k2 - 1]
                };
                assert(order@[k2] == a2);
                if k2 == p {
                    // Everything before the insertion point is not greater
                    // than the new key, and keys are totally ordered.
                    assert(!lex_less(
                        primary@[i as int],
                        secondary@[i as int],
                        i as int,
                        primary@[a1 as int],
                        secondary@[a1 as int],
                        a1 as int,
                    ));
                    assert(a1 < i);
                } else if k1 == p {
                    assert(a2 == old_order[k2 - 1]);
                    if p < old_order.len() {
                        assert(lex_less(
                            primary@[i as int],
                            secondary@[i as int],
                            i as int,
                            primary@[old_order[p as int] as int],
                            secondary@[old_order[p as int] as int],
                            old_order[p as int] as int,
                        ));
                    }
                }
            }
        }
        i = i + 1;
    }
    order
}

/// `result` holds the backends of `orig` reordered ascending by
/// `metric[i]`, ties broken by the original position (a stable sort).
pub open spec fn sorted_selection(
    result: Seq<crate::backend::Backend>,
    orig: Seq<crate::backend::Backend>,
    metric: Seq<u64>,
) -> bool {
    exists|ord: Seq<usize>|
        {
            &&& #[trigger] is_permutation(ord, orig.len() as int)
            &&& result.len() == orig.len()
            &&& forall|k: int| 0 <= k < ord.len() ==> result[k] == orig[(#[trigger] ord[k]) as int]
            &&& forall|k1: int, k2: int|
                0 <= k1 < k2 < ord.len() ==> metric[(#[trigger] ord[k1]) as int] < metric[(
                #[trigger] ord[k2]) as int] || (metric[ord[k1] as int] == metric[ord[k2] as int]
                    && ord[k1] < ord[k2])
        }
}

/// Eventual coverage for the sorted selectors: the reordered array holds
/// every backend of the original snapshot, and no position twice, so
/// walking it to exhaustion yields every backend exactly once.
pub proof fn lemma_sorted_selection_coverage(
    result: Seq<crate::backend::Backend>,
    orig: Seq<crate::backend::Backend>,
    metric: Seq<u64>,
)
    requires
        sorted_selection(result, orig, metric),
        orig.len() <= usize::MAX,
    ensures
        result.len() == orig.len(),
        forall|b: crate::backend::Backend| orig.contains(b) ==> result.contains(b),
        forall|b: crate::backend::Backend| result.contains(b) ==> orig.contains(b),
{
    let ord = choose|ord: Seq<usize>|
        {
            &&& #[trigger] is_permutation(ord, orig.len() as int)
            &&& result.len() == orig.len()
            &&& forall|k: int| 0 <= k < ord.len() ==> result[k] == orig[(#[trigger] ord[k]) as int]
            &&& forall|k1: int, k2: int|
                0 <= k1 < k2 < ord.len() ==> metric[(#[trigger] ord[k1]) as int] < metric[(
                #[trigger] ord[k2]) as int] || (metric[ord[k1] as int] == metric[ord[k2] as int]
                    && ord[k1] < ord[k2])
        };
    assert forall|b: crate::backend::Backend| orig.contains(b) implies result.contains(b) by {
        let j = choose|j: int| 0 <= j < orig.len() && orig[j] == b;
        assert(ord.contains(j as usize));
        let k = choose|k: int| 0 <= k < ord.len() && ord[k] == j as usize;
        assert(result[k] == b);
    }
    assert forall|b: crate::backend::Backend| result.contains(b) implies orig.contains(b) by {
        let k = choose|k: int| 0 <= k < result.len() && result[k] == b;
        assert(orig[ord[k] as int] == b);
    }
}

/// Executable form of [`lex_less`].
fn key_less(p1: u64, s1: u64, i1: usize, p2: u64, s2: u64, i2: usize) -> (r: bool)
    ensures
        r == lex_less(p1, s1, i1 as int, p2, s2, i2 as int),
{
    p1 < p2 || (p1 == p2 && s1 < s2) || (p1 == p2 && s1 == s2 && i1 < i2)
}

} // verus!

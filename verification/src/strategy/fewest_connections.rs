//! Fewest connections: backends ordered ascending by their open-connection
//! count at build time, stable on ties.

use vstd::prelude::*;

use crate::backend::{all_wf, Backend};
use crate::strategy::ordering::{is_permutation, sort_indices, sorted_order, sorted_selection};
use crate::strategy::BackendIter;

verus! {

/// The fewest-connections strategy.
#[derive(Clone, Copy, PartialEq, Eq, Structural, Debug, Default)]
pub struct FewestConnections;

/// Backends sorted ascending by connection count at build time.
pub struct FewestConnectionsSelector {
    pub backends: Vec<Backend>,
}

impl FewestConnections {
    /// Sorts the snapshot ascending by the given per-backend connection
    /// counts, stable on ties.
    pub fn build_backend_selector(
        &self,
        backends: &Vec<Backend>,
        connection_counts: &Vec<u64>,
    ) -> (r: FewestConnectionsSelector)
        requires
            all_wf(backends@),
            connection_counts@.len() == backends@.len(),
        ensures
            r.backends@.len() == backends@.len(),
            all_wf(r.backends@),
            sorted_selection(r.backends@, backends@, connection_counts@),
    {
        let sorted = sort_backends(backends, connection_counts);
        proof {
            assert forall|k: int| 0 <= k < sorted@.len() implies (#[trigger] sorted@[k]).wf() by {
                assert(backends@.contains(sorted@[k]));
                let j = choose|j: int| 0 <= j < backends@.len() && backends@[j] == sorted@[k];
                assert(backends@[j].wf());
            }
        }
        FewestConnectionsSelector { backends: sorted }
    }
}

impl FewestConnectionsSelector {
    /// A fresh iterator over the presorted array; the request key plays no
    /// part.
    pub fn iter(&self, _key: &[u8]) -> (r: FewestConnectionsIter)
        ensures
            r.backends@ == self.backends@,
            r.index == 0,
    {
        FewestConnectionsIter::new(self)
    }
}

/// Walks the presorted backend array once, in order.
pub struct FewestConnectionsIter {
    pub backends: Vec<Backend>,
    pub index: usize,
}

impl FewestConnectionsIter {
    /// Starts at the backend with the fewest connections.
    pub fn new(selector: &FewestConnectionsSelector) -> (r: FewestConnectionsIter)
        ensures
            r.backends@ == selector.backends@,
            r.index == 0,
    {
        FewestConnectionsIter { backends: copy_backends(&selector.backends), index: 0 }
    }
}

impl BackendIter for FewestConnectionsIter {
    /// The stream of this iterator: the rest of the presorted array.
    open spec fn yielded(&self, k: int) -> Option<Backend> {
        if k >= 0 && self.index + k < self.backends@.len() {
            Some(self.backends@[self.index + k])
        } else {
            None
        }
    }

    /// Yields each backend of the selector exactly once, in sorted order.
    fn next(&mut self) -> (r: Option<Backend>)
        ensures
            old(self).index < old(self).backends@.len() ==> r == Some(
                old(self).backends@[old(self).index as int],
            ) && final(self).index == old(self).index + 1,
            old(self).index >= old(self).backends@.len() ==> r is None && final(self).index
                == old(self).index,
            final(self).backends@ == old(self).backends@,
            r is Some ==> old(self).backends@.contains(r->Some_0),
    {
        if self.index < self.backends.len() {
            let b = self.backends[self.index];
            self.index = self.index + 1;
            proof {
                assert(old(self).backends@.contains(old(self).backends@[old(self).index as int]));
            }
            Some(b)
        } else {
            None
        }
    }
}

/// Copies a backend array.
pub fn copy_backends(v: &Vec<Backend>) -> (r: Vec<Backend>)
    ensures
        r@ == v@,
{
    let mut r: Vec<Backend> = Vec::new();
    let mut i: usize = 0;
    while i < v.len()
        invariant
            i <= v@.len(),
            r@ == v@.take(i as int),
        decreases v@.len() - i,
    {
        r.push(v[i]);
        proof {
            assert(r@ =~= v@.take(i + 1));
        }
        i = i + 1;
    }
    proof {
        assert(v@.take(v@.len() as int) =~= v@);
    }
    r
}

/// Reorders `backends` ascending by `metric`, stable on ties.
pub fn sort_backends(backends: &Vec<Backend>, metric: &Vec<u64>) -> (r: Vec<Backend>)
    requires
        metric@.len() == backends@.len(),
    ensures
        r@.len() == backends@.len(),
        sorted_selection(r@, backends@, metric@),
        forall|k: int| 0 <= k < r@.len() ==> backends@.contains(#[trigger] r@[k]),
{
    let n = backends.len();
    let mut zeros: Vec<u64> = Vec::new();
    let mut i: usize = 0;
    while i < n
        invariant
            i <= n,
            zeros@.len() == i,
            forall|t: int| 0 <= t < i ==> (#[trigger] zeros@[t]) == 0,
        decreases n - i,
    {
        zeros.push(0);
        i = i + 1;
    }
    let order = sort_indices(metric, &zeros);
    let mut r: Vec<Backend> = Vec::new();
    let mut k: usize = 0;
    while k < order.len()
        invariant
            k <= order@.len(),
            r@.len() == k,
            is_permutation(order@, backends@.len() as int),
            sorted_order(order@, metric@, zeros@),
            backends@.len() == metric@.len() == zeros@.len(),
            forall|t: int| 0 <= t < zeros@.len() ==> (#[trigger] zeros@[t]) == 0,
            forall|j: int| 0 <= j < k ==> r@[j] == backends@[(#[trigger] order@[j]) as int],
        decreases order@.len() - k,
    {
        r.push(backends[order[k]]);
        k = k + 1;
    }
    proof {
        assert forall|k1: int, k2: int| 0 <= k1 < k2 < order@.len() implies metric@[(
        #[trigger] order@[k1]) as int] < metric@[(#[trigger] order@[k2]) as int] || (metric@[
        order@[k1] as int] == metric@[order@[k2] as int] && order@[k1] < order@[k2]) by {
            assert(crate::strategy::ordering::lex_less(
                metric@[order@[k1] as int],
                zeros@[order@[k1] as int],
                order@[k1] as int,
                metric@[order@[k2] as int],
                zeros@[order@[k2] as int],
                order@[k2] as int,
            ));
        }
        assert(sorted_selection(r@, backends@, metric@)) by {
            assert(is_permutation(order@, backends@.len() as int) && r@.len() == backends@.len()
                && (forall|j: int|
                0 <= j < order@.len() ==> r@[j] == backends@[(#[trigger] order@[j]) as int]));
        }
        assert forall|j: int| 0 <= j < r@.len() implies backends@.contains(#[trigger] r@[j]) by {
            assert(r@[j] == backends@[order@[j] as int]);
        }
    }
    r
}

} // verus!

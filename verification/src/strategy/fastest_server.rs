//! Fastest server: backends ordered ascending by their latency average at
//! build time. A zero average means "no sample yet" and sorts first, so
//! cold backends get probed.

use vstd::prelude::*;

use crate::backend::{all_wf, Backend};
use crate::strategy::fewest_connections::{copy_backends, sort_backends};
use crate::strategy::ordering::sorted_selection;
use crate::strategy::BackendIter;

verus! {

/// The fastest-server strategy.
#[derive(Clone, Copy, PartialEq, Eq, Structural, Debug, Default)]
pub struct FastestServer;

/// Backends sorted ascending by latency average at build time.
pub struct FastestServerSelector {
    pub backends: Vec<Backend>,
}

impl FastestServer {
    /// Sorts the snapshot ascending by the given per-backend latency
    /// averages (zero first), stable on ties.
    pub fn build_backend_selector(&self, backends: &Vec<Backend>, latencies: &Vec<u64>) -> (r:
        FastestServerSelector)
        requires
            all_wf(backends@),
            latencies@.len() == backends@.len(),
        ensures
            r.backends@.len() == backends@.len(),
            all_wf(r.backends@),
            sorted_selection(r.backends@, backends@, latencies@),
    {
        let sorted = sort_backends(backends, latencies);
        proof {
            assert forall|k: int| 0 <= k < sorted@.len() implies (#[trigger] sorted@[k]).wf() by {
                assert(backends@.contains(sorted@[k]));
                let j = choose|j: int| 0 <= j < backends@.len() && backends@[j] == sorted@[k];
                assert(backends@[j].wf());
            }
        }
        FastestServerSelector { backends: sorted }
    }
}

impl FastestServerSelector {
    /// A fresh iterator over the presorted array; the request key plays no
    /// part.
    pub fn iter(&self, _key: &[u8]) -> (r: FastestServerIter)
        ensures
            r.backends@ == self.backends@,
            r.index == 0,
    {
        FastestServerIter { backends: copy_backends(&self.backends), index: 0 }
    }
}

/// Walks the presorted backend array once, in order.
pub struct FastestServerIter {
    pub backends: Vec<Backend>,
    pub index: usize,
}

impl BackendIter for FastestServerIter {
    /// The stream of this iterator: the rest of the presorted array.
    open spec fn yielded(&self, k: int) -> Option<Backend> {
        if k >= 0 && self.index + k < self.backends@.len() {
            Some(self.backends@[self.index + k])
        } else {
            None
        }
    }

    /// Yields each backend of the selector exactly once, fastest first.
    fn next(&mut self) -> (r: Option<Backend>)
        ensures
            old(self).index < old(self).backends@.len() ==> r == Some(
                old(self).backends@[old(self).index as int],
            ) && final(self).index == old(self).index + 1,
            old(self).index >= old(self).backends@.len() ==> r is None && final(self).index
                == old(self).index,
            final(self).backends@ == old(self).backends@,
            r is Some ==> old(self).backends@.contains(r->Some_0),
    {
        if self.index < self.backends.len() {
            let b = self.backends[self.index];
            self.index = self.index + 1;
            proof {
                assert(old(self).backends@.contains(old(self).backends@[old(self).index as int]));
            }
            Some(b)
        } else {
            None
        }
    }
}

} // verus!

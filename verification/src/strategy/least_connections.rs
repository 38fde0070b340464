//! Least connections, the dynamic variant: each pick scans the current
//! connection counts and takes the backend with the fewest, skipping the
//! ones already yielded.
//!
//! The counts live with the caller (the metrics table), never in module
//! state, and are handed to the iterator when it is created.

use vstd::prelude::*;

use crate::backend::{all_wf, Backend};
use crate::strategy::fewest_connections::copy_backends;

verus! {

/// The dynamic least-connections selection.
pub struct LeastConnections {
    pub backends: Vec<Backend>,
}

impl LeastConnections {
    /// Keeps the snapshot as-is; picking happens at iteration time.
    pub fn new(backends: &Vec<Backend>) -> (r: LeastConnections)
        requires
            all_wf(backends@),
        ensures
            r.backends@ == backends@,
            all_wf(r.backends@),
    {
        Self::from_backends(copy_backends(backends))
    }

    /// Builds the selection over an owned backend array.
    pub fn from_backends(backends: Vec<Backend>) -> (r: LeastConnections)
        requires
            all_wf(backends@),
        ensures
            r.backends@ == backends@,
            all_wf(r.backends@),
    {
        LeastConnections { backends }
    }

    /// A fresh iterator over the given connection counts; the request key
    /// plays no part.
    pub fn iter(&self, _key: &[u8], connection_counts: &Vec<u64>) -> (r: LeastConnectionsIter)
        requires
            connection_counts@.len() == self.backends@.len(),
        ensures
            r.backends@ == self.backends@,
            r.counts@ == connection_counts@,
            r.yielded@ == Seq::<usize>::empty(),
    {
        LeastConnectionsIter {
            backends: copy_backends(&self.backends),
            counts: copy_counts(connection_counts),
            yielded: Vec::new(),
        }
    }
}

/// The first index among `[0, n)` not in `yielded` with the least count.
pub open spec fn argmin_upto(counts: Seq<u64>, yielded: Seq<usize>, n: int) -> int
    decreases n,
{
    if n <= 0 {
        -1
    } else {
        let p = argmin_upto(counts, yielded, n - 1);
        if yielded.contains((n - 1) as usize) {
            p
        } else if p == -1 || counts[n - 1] < counts[p] {
            n - 1
        } else {
            p
        }
    }
}

/// Picks backends fewest-connections-first, each at most once.
pub struct LeastConnectionsIter {
    pub backends: Vec<Backend>,
    pub counts: Vec<u64>,
    pub yielded: Vec<usize>,
}

impl LeastConnectionsIter {
    /// The backend with the fewest connections among those not yet
    /// yielded; `None` once every backend has been yielded.
    pub fn next(&mut self) -> (r: Option<Backend>)
        requires
            old(self).counts@.len() == old(self).backends@.len(),
        ensures
            final(self).backends@ == old(self).backends@,
            final(self).counts@ == old(self).counts@,
            ({
                let m = argmin_upto(
                    old(self).counts@,
                    old(self).yielded@,
                    old(self).backends@.len() as int,
                );
                if m == -1 {
                    r is None && final(self).yielded@ == old(self).yielded@
                } else {
                    r == Some(old(self).backends@[m]) && final(self).yielded@ == old(
                        self,
                    ).yielded@.push(m as usize)
                }
            }),
            r is Some ==> old(self).backends@.contains(r->Some_0),
    {
        let n = self.backends.len();
        let mut best: usize = n;
        let mut i: usize = 0;
        while i < n
            invariant
                i <= n,
                n == self.backends@.len() == self.counts@.len(),
                best <= n,
                best == n ==> argmin_upto(self.counts@, self.yielded@, i as int) == -1,
                best < n ==> argmin_upto(self.counts@, self.yielded@, i as int) == best,
            decreases n - i,
        {
            if !contains_usize(&self.yielded, i) {
                if best == n || self.counts[i] < self.counts[best] {
                    best = i;
                }
            }
            i = i + 1;
        }
        if best < n {
            let b = self.backends[best];
            self.yielded.push(best);
            proof {
                assert(old(self).backends@.contains(old(self).backends@[best as int]));
            }
            Some(b)
        } else {
            None
        }
    }
}

/// Copies a count array.
pub fn copy_counts(v: &Vec<u64>) -> (r: Vec<u64>)
    ensures
        r@ == v@,
{
    let mut r: Vec<u64> = Vec::new();
    let mut i: usize = 0;
    while i < v.len()
        invariant
            i <= v@.len(),
            r@ == v@.take(i as int),
        decreases v@.len() - i,
    {
        r.push(v[i]);
        proof {
            assert(r@ =~= v@.take(i + 1));
        }
        i = i + 1;
    }
    proof {
        assert(v@.take(v@.len() as int) =~= v@);
    }
    r
}

/// Whether the array holds `x`.
pub fn contains_usize(v: &Vec<usize>, x: usize) -> (r: bool)
    ensures
        r == v@.contains(x),
{
    let mut i: usize = 0;
    while i < v.len()
        invariant
            i <= v@.len(),
            forall|j: int| 0 <= j < i ==> v@[j] != x,
        decreases v@.len() - i,
    {
        if v[i] == x {
            return true;
        }
        i = i + 1;
    }
    false
}

} // verus!

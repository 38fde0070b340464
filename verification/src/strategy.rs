//! Backend selection strategies.
//!
//! Each strategy builds an immutable selector from a backend snapshot; a
//! per-request iterator walks candidate backends, first choice first.

pub mod adaptive;
pub mod consistent;
pub mod fastest_server;
pub mod fewest_connections;
pub mod fnv_hash;
pub mod least_connections;
pub mod ordering;
pub mod random;
pub mod round_robin;
pub mod utils;
pub mod weighted;

use vstd::prelude::*;

use crate::backend::Backend;

verus! {

/// An iterator over candidate backends, first choice first.
///
/// Like [`Iterator`], but with its whole future output as its model: an
/// iterator value stands for the stream of candidates it will yield, and
/// each `next` hands out the head of that stream and shifts it by one.
pub trait BackendIter {
    /// The candidate the `k`-th future call of `next` will yield (`k = 0`
    /// is the very next one), or `None` when the stream has ended by then.
    /// The default stream is empty; an implementation overrides it with
    /// its own model.
    open spec fn yielded(&self, k: int) -> Option<Backend> {
        None
    }

    /// The next candidate, or `None` when no more are left: the head of
    /// the stream, which the call shifts by one.
    fn next(&mut self) -> (r: Option<Backend>)
        ensures
            r == old(self).yielded(0),
            forall|k: int| k >= 0 ==> final(self).yielded(k) == old(self).yielded(k + 1),
    ;
}

} // verus!

//! A bounded deduplicating wrapper over a backend iterator.

use vstd::prelude::*;

use crate::backend::Backend;
use crate::strategy::BackendIter;

verus! {

/// The stream position of the first fresh candidate: the least `p` in
/// `[k, n)` such that the iterator's `p`-th yield is a backend whose hash
/// key is not in `seen`; -1 when the stream ends or the budget `n` runs
/// out first.
pub open spec fn first_fresh_from<I: BackendIter>(it: I, seen: Seq<u64>, k: int, n: int) -> int
    decreases n - k,
{
    if k < 0 || k >= n {
        -1
    } else {
        match it.yielded(k) {
            None => -1,
            Some(b) => if seen.contains(b.hash_key) {
                first_fresh_from(it, seen, k + 1, n)
            } else {
                k
            },
        }
    }
}

/// Wraps another iterator and yields each backend at most once, identified
/// by its hash key. A budget on inner steps bounds the search: ring-walking
/// strategies can revisit the same backend many times, and an unbounded
/// search in a degenerate topology could stall a request.
pub struct UniqueIterator<I: BackendIter> {
    pub iter: I,
    pub seen: Vec<u64>,
    pub max_iterations: usize,
    pub steps: usize,
}

impl<I: BackendIter> UniqueIterator<I> {
    /// Wraps exactly the given iterator, with a budget of `max_iterations`
    /// inner steps, an empty seen set, and no steps taken; the inner
    /// iterator is not advanced.
    pub fn new(iter: I, max_iterations: usize) -> (r: UniqueIterator<I>)
        ensures
            r.iter == iter,
            r.seen@ == Seq::<u64>::empty(),
            r.steps == 0,
            r.max_iterations == max_iterations,
    {
        Self { iter, max_iterations, seen: Vec::new(), steps: 0 }
    }

    /// The first backend of the inner stream not yielded before.
    ///
    /// Advances the inner iterator, skipping hash keys already seen.
    /// Where the remaining budget admits a fresh candidate at stream
    /// position `f`, exactly that backend comes out: it is recorded as
    /// seen, `f + 1` inner steps are charged, and the inner stream moves
    /// past it. Otherwise (the stream ends, or the budget is spent on
    /// duplicates first) the result is `None` and the seen set stays.
    pub fn get_next(&mut self) -> (r: Option<Backend>)
        ensures
            final(self).max_iterations == old(self).max_iterations,
            final(self).steps >= old(self).steps,
            ({
                let budget = if old(self).steps < old(self).max_iterations {
                    old(self).max_iterations - old(self).steps
                } else {
                    0int
                };
                let f = first_fresh_from(old(self).iter, old(self).seen@, 0, budget);
                if f >= 0 {
                    &&& r == old(self).iter.yielded(f)
                    &&& r is Some
                    &&& !old(self).seen@.contains(r->Some_0.hash_key)
                    &&& final(self).seen@ == old(self).seen@.push(r->Some_0.hash_key)
                    &&& final(self).steps == old(self).steps + f + 1
                    &&& forall|k: int|
                        k >= 0 ==> final(self).iter.yielded(k) == old(self).iter.yielded(
                            k + f + 1,
                        )
                } else {
                    &&& r is None
                    &&& final(self).seen@ == old(self).seen@
                }
            }),
    {
        let ghost budget: int = if old(self).steps < old(self).max_iterations {
            old(self).max_iterations - old(self).steps
        } else {
            0int
        };
        loop
            invariant
                self.max_iterations == old(self).max_iterations,
                self.seen@ == old(self).seen@,
                old(self).steps <= self.steps,
                self.steps - old(self).steps <= budget,
                budget == if old(self).steps < old(self).max_iterations {
                    old(self).max_iterations - old(self).steps
                } else {
                    0int
                },
                forall|k: int|
                    k >= 0 ==> self.iter.yielded(k) == old(self).iter.yielded(
                        k + (self.steps - old(self).steps),
                    ),
                first_fresh_from(old(self).iter, old(self).seen@, 0, budget) == first_fresh_from(
                    old(self).iter,
                    old(self).seen@,
                    self.steps - old(self).steps,
                    budget,
                ),
            decreases self.max_iterations - self.steps,
        {
            let ghost j = self.steps - old(self).steps;
            let item = self.iter.next();
            proof {
                assert(item == old(self).iter.yielded(j));
            }
            match item {
                None => {
                    return None;
                },
                Some(b) => {
                    if self.steps >= self.max_iterations {
                        return None;
                    }
                    proof {
                        assert(j < budget);
                    }
                    self.steps = self.steps + 1;
                    if !contains_key(&self.seen, b.hash_key) {
                        self.seen.push(b.hash_key);
                        proof {
                            assert(first_fresh_from(old(self).iter, old(self).seen@, j, budget)
                                == j);
                        }
                        return Some(b);
                    }
                },
            }
        }
    }
}

/// Eventual coverage, one step at a time: wherever the inner stream
/// yields, within the budget, a backend whose key is not yet seen (and no
/// earlier gap), the next `get_next` returns a fresh backend - its key
/// joins the seen set, so repeated calls yield distinct backends until
/// either every key the stream offers has been seen or the budget is
/// spent.
pub proof fn lemma_unique_progress<I: BackendIter>(it: I, seen: Seq<u64>, n: int, p: int)
    requires
        0 <= p < n,
        forall|j: int| 0 <= j <= p ==> (#[trigger] it.yielded(j)) is Some,
        !seen.contains(it.yielded(p)->Some_0.hash_key),
    ensures
        first_fresh_from(it, seen, 0, n) >= 0,
{
    lemma_first_fresh_finds(it, seen, 0, n, p);
}

proof fn lemma_first_fresh_finds<I: BackendIter>(it: I, seen: Seq<u64>, k: int, n: int, p: int)
    requires
        0 <= k <= p < n,
        forall|j: int| 0 <= j <= p ==> (#[trigger] it.yielded(j)) is Some,
        !seen.contains(it.yielded(p)->Some_0.hash_key),
    ensures
        first_fresh_from(it, seen, k, n) >= 0,
    decreases p - k,
{
    if k < p && seen.contains(it.yielded(k)->Some_0.hash_key) {
        lemma_first_fresh_finds(it, seen, k + 1, n, p);
    }
}

/// Whether the array holds `x`.
pub fn contains_key(v: &Vec<u64>, x: u64) -> (r: bool)
    ensures
        r == v@.contains(x),
{
    let mut i: usize = 0;
    while i < v.len()
        invariant
            i <= v@.len(),
            forall|j: int| 0 <= j < i ==> v@[j] != x,
        decreases v@.len() - i,
    {
        if v[i] == x {
            return true;
        }
        i = i + 1;
    }
    false
}

} // verus!

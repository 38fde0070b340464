//! Consistent hashing on a Ketama-style ring.
//!
//! Each backend places virtual nodes on a 32-bit hash ring, proportional to
//! its weight. A request key selects the first ring point whose hash
//! strictly exceeds the key's hash (wrapping around), so for a fixed
//! backend set and key the first pick is stable across requests, and a
//! rebuild with one backend added or removed remaps only the keys that
//! land on that backend's arcs.

use vstd::prelude::*;

use crate::addr::{virtual_node_bytes, virtual_node_text};
use crate::backend::{all_wf, Backend};
use crate::errors::ConfigError;
use crate::hashing::{fnv1a64, fnv1a64_spec};
use crate::strategy::ordering::{is_permutation, sort_indices, sorted_order};

verus! {

/// Virtual nodes per weight unit.
pub const POINTS_PER_WEIGHT: u32 = 16;

/// The consistent-hashing strategy.
#[derive(Clone, Copy, PartialEq, Eq, Structural, Debug, Default)]
pub struct Consistent;

/// One virtual node: its position on the 32-bit ring, the owning
/// backend's hash key (the tie-breaker), and the owning backend's index.
#[derive(Clone, Copy, PartialEq, Eq, Structural, Debug)]
pub struct RingPoint {
    pub hash: u64,
    pub key: u64,
    pub idx: u16,
}

/// A 64-bit finishing mixer: FNV-1a diffuses suffix changes poorly into
/// the high bits, and without this avalanche step the virtual nodes of one
/// backend would cluster on the ring.
pub open spec fn mix64(z: u64) -> u64 {
    let a = (z ^ (z >> 33)).wrapping_mul(0xff51_afd7_ed55_8ccd);
    let b = (a ^ (a >> 33)).wrapping_mul(0xc4ce_b9fe_1a85_ec53);
    b ^ (b >> 33)
}

/// The ring hash of a byte string: mixed FNV-1a folded onto 32 bits.
pub open spec fn ring_hash_spec(bytes: Seq<u8>) -> u64 {
    (mix64(fnv1a64_spec(bytes)) as int % 0x1_0000_0000) as u64
}

/// Computes the ring hash of a byte string.
pub fn ring_hash(bytes: &[u8]) -> (r: u64)
    ensures
        r == ring_hash_spec(bytes@),
{
    let z = fnv1a64(bytes);
    let a = (z ^ (z >> 33u64)).wrapping_mul(0xff51_afd7_ed55_8ccd);
    let b = (a ^ (a >> 33u64)).wrapping_mul(0xc4ce_b9fe_1a85_ec53);
    (b ^ (b >> 33u64)) % 0x1_0000_0000
}

/// A built ring and the backend array it points into.
pub struct ConsistentSelector {
    pub backends: Vec<Backend>,
    pub ring: Vec<RingPoint>,
}

impl ConsistentSelector {
    /// Well-formed: every ring point indexes a backend, the ring is
    /// ordered by hash, and backends leave it non-empty.
    pub open spec fn wf(self) -> bool {
        &&& self.backends@.len() <= 0xFFFF
        &&& all_wf(self.backends@)
        &&& (self.backends@.len() > 0 ==> self.ring@.len() > 0)
        &&& forall|k: int|
            0 <= k < self.ring@.len() ==> ((#[trigger] self.ring@[k]).idx as int)
                < self.backends@.len()
        &&& forall|k1: int, k2: int|
            0 <= k1 < k2 < self.ring@.len() ==> (#[trigger] self.ring@[k1]).hash
                <= (#[trigger] self.ring@[k2]).hash
    }

    /// A fresh iterator for a request key, starting at the ring successor
    /// of the key's hash.
    pub fn iter(&self, key: &[u8]) -> (r: ConsistentIter)
        requires
            self.wf(),
        ensures
            r.pos == start_position(*self, key@),
    {
        let h = ring_hash(key);
        let mut i: usize = 0;
        while i < self.ring.len() && self.ring[i].hash <= h
            invariant
                i <= self.ring@.len(),
                successor_from(self.ring@, h, 0) == successor_from(self.ring@, h, i as int),
            decreases self.ring@.len() - i,
        {
            i = i + 1;
        }
        let pos: usize = if i == self.ring.len() {
            0
        } else {
            i
        };
        ConsistentIter { pos }
    }
}

/// The first ring index at or after `i` whose hash exceeds `h`, or the
/// ring length if none does.
pub open spec fn successor_from(ring: Seq<RingPoint>, h: u64, i: int) -> int
    decreases ring.len() - i,
{
    if i < 0 || i >= ring.len() {
        ring.len() as int
    } else if ring[i].hash > h {
        i
    } else {
        successor_from(ring, h, i + 1)
    }
}

/// Where the iterator for `key` starts on the ring: the successor of the
/// key's hash, wrapping to the front.
pub open spec fn start_position(sel: ConsistentSelector, key: Seq<u8>) -> int {
    let s = successor_from(sel.ring@, ring_hash_spec(key), 0);
    if s == sel.ring@.len() {
        0
    } else {
        s
    }
}

/// The backend the iterator for `key` yields first, while the selector
/// stands: selection is a function of the ring and the key alone.
pub open spec fn consistent_first_pick(sel: ConsistentSelector, key: Seq<u8>) -> Option<Backend> {
    if sel.ring@.len() == 0 {
        None
    } else {
        Some(sel.backends@[sel.ring@[start_position(sel, key) % sel.ring@.len() as int].idx as int])
    }
}

/// Consistent-hash stability: while the selector stands, the first pick
/// for a key is a function of the ring and the key alone, so any two
/// requests with the same key get the same backend until the selector is
/// rebuilt over a different backend set.
pub proof fn lemma_consistent_stability(sel: ConsistentSelector, key: Seq<u8>, it: ConsistentIter)
    requires
        sel.wf(),
        sel.ring@.len() > 0,
        it.pos == start_position(sel, key),
    ensures
        Some(sel.backends@[sel.ring@[it.pos as int % sel.ring@.len() as int].idx as int])
            == consistent_first_pick(sel, key),
{
}

/// Walks the ring forward from the start position, yielding the owning
/// backend of each point.
pub struct ConsistentIter {
    pub pos: usize,
}

impl ConsistentIter {
    /// The backend owning the next ring point.
    pub fn next(&mut self, sel: &ConsistentSelector) -> (r: Option<Backend>)
        requires
            sel.wf(),
        ensures
            sel.ring@.len() == 0 ==> r is None && *final(self) == *old(self),
            sel.ring@.len() > 0 ==> ({
                let k = old(self).pos as int % sel.ring@.len() as int;
                &&& r == Some(sel.backends@[sel.ring@[k].idx as int])
                &&& final(self).pos == k + 1
            }),
            r is Some ==> sel.backends@.contains(r->Some_0),
    {
        if sel.ring.len() == 0 {
            return None;
        }
        let k: usize = self.pos % sel.ring.len();
        let b = sel.backends[sel.ring[k].idx as usize];
        self.pos = k + 1;
        proof {
            let ki = old(self).pos as int % sel.ring@.len() as int;
            assert(sel.backends@.contains(sel.backends@[sel.ring@[ki].idx as int]));
        }
        Some(b)
    }
}

/// The virtual nodes of the backend at position `i`: one point per
/// `j` in `0 .. count`, hashed from the text `addr#j`.
pub open spec fn backend_points(b: Backend, i: int, count: int) -> Seq<RingPoint>
    decreases count,
{
    if count <= 0 {
        Seq::empty()
    } else {
        backend_points(b, i, count - 1).push(
            RingPoint {
                hash: ring_hash_spec(virtual_node_bytes(b.addr, count - 1)),
                key: b.hash_key,
                idx: i as u16,
            },
        )
    }
}

/// All virtual nodes of the first `upto` backends, in construction order.
pub open spec fn ring_points(backends: Seq<Backend>, upto: int) -> Seq<RingPoint>
    decreases upto,
{
    if upto <= 0 {
        Seq::empty()
    } else {
        ring_points(backends, upto - 1) + backend_points(
            backends[upto - 1],
            upto - 1,
            backends[upto - 1].weight as int * POINTS_PER_WEIGHT as int,
        )
    }
}

/// The ring is the deterministic Ketama construction over the snapshot: a
/// permutation of its virtual nodes ordered by ring hash, ties broken by
/// the owning backend's hash key and then by construction order. That
/// order is total, so the sorted arrangement - and with it the first pick
/// of every key - is the same on every rebuild over the same snapshot.
pub open spec fn ring_built_from(ring: Seq<RingPoint>, backends: Seq<Backend>) -> bool {
    let pts = ring_points(backends, backends.len() as int);
    exists|ord: Seq<usize>|
        {
            &&& #[trigger] is_permutation(ord, pts.len() as int)
            &&& ring.len() == pts.len()
            &&& forall|t: int| 0 <= t < ord.len() ==> ring[t] == pts[(#[trigger] ord[t]) as int]
            &&& forall|t1: int, t2: int|
                0 <= t1 < t2 < ord.len() ==> crate::strategy::ordering::lex_less(
                    pts[(#[trigger] ord[t1]) as int].hash,
                    pts[ord[t1] as int].key,
                    ord[t1] as int,
                    pts[(#[trigger] ord[t2]) as int].hash,
                    pts[ord[t2] as int].key,
                    ord[t2] as int,
                )
        }
}

impl Consistent {
    /// Builds the ring: `weight * POINTS_PER_WEIGHT` virtual nodes per
    /// backend, each hashed from the text `addr#j`, ordered by hash with
    /// ties broken by the backend's hash key.
    ///
    /// Fails exactly when the backend array exceeds 2^16 - 1 entries.
    pub fn build_backend_selector(&self, backends: &Vec<Backend>) -> (r: Result<
        ConsistentSelector,
        ConfigError,
    >)
        requires
            all_wf(backends@),
        ensures
            r is Ok ==> r->Ok_0.wf() && r->Ok_0.backends@ == backends@,
            r is Ok ==> ring_built_from(r->Ok_0.ring@, backends@),
            r is Ok <==> backends@.len() <= 0xFFFF,
            r is Err ==> r->Err_0 == ConfigError::TooManyWeightEntries,
    {
        if backends.len() > 0xFFFF {
            return Err(ConfigError::TooManyWeightEntries);
        }
        let n = backends.len();
        let mut points: Vec<RingPoint> = Vec::new();
        let mut i: usize = 0;
        while i < n
            invariant
                i <= n,
                n == backends@.len() <= 0xFFFF,
                all_wf(backends@),
                i > 0 ==> points@.len() > 0,
                points@ == ring_points(backends@, i as int),
                forall|k: int|
                    0 <= k < points@.len() ==> ((#[trigger] points@[k]).idx as int) < n as int,
            decreases n - i,
        {
            let count: u32 = (backends[i].weight as u32) * POINTS_PER_WEIGHT;
            proof {
                assert(backends@[i as int].weight >= 1);
            }
            let mut j: u32 = 0;
            while j < count
                invariant
                    i < n,
                    j <= count,
                    n == backends@.len() <= 0xFFFF,
                    all_wf(backends@),
                    points@.len() >= j,
                    count == backends@[i as int].weight as int * POINTS_PER_WEIGHT as int,
                    points@ == ring_points(backends@, i as int) + backend_points(
                        backends@[i as int],
                        i as int,
                        j as int,
                    ),
                    forall|k: int|
                        0 <= k < points@.len() ==> ((#[trigger] points@[k]).idx as int) < n as int,
                decreases count - j,
            {
                let text = virtual_node_text(&backends[i].addr, j);
                let hash = ring_hash(text.as_slice());
                points.push(RingPoint { hash, key: backends[i].hash_key, idx: i as u16 });
                proof {
                    assert(points@ =~= ring_points(backends@, i as int) + backend_points(
                        backends@[i as int],
                        i as int,
                        j + 1,
                    ));
                }
                j = j + 1;
            }
            proof {
                assert(points@ =~= ring_points(backends@, i + 1));
            }
            i = i + 1;
        }
        // Order the points by hash, ties by the owning backend's hash key.
        let m = points.len();
        let mut hashes: Vec<u64> = Vec::new();
        let mut keys: Vec<u64> = Vec::new();
        let mut k: usize = 0;
        while k < m
            invariant
                k <= m,
                m == points@.len(),
                hashes@.len() == k,
                keys@.len() == k,
                forall|t: int| 0 <= t < k ==> hashes@[t] == (#[trigger] points@[t]).hash,
                forall|t: int| 0 <= t < k ==> keys@[t] == (#[trigger] points@[t]).key,
            decreases m - k,
        {
            hashes.push(points[k].hash);
            keys.push(points[k].key);
            k = k + 1;
        }
        let order = sort_indices(&hashes, &keys);
        let mut ring: Vec<RingPoint> = Vec::new();
        let mut t: usize = 0;
        while t < order.len()
            invariant
                t <= order@.len(),
                is_permutation(order@, m as int),
                sorted_order(order@, hashes@, keys@),
                m == points@.len() == hashes@.len() == keys@.len(),
                forall|u: int| 0 <= u < m ==> hashes@[u] == (#[trigger] points@[u]).hash,
                forall|u: int| 0 <= u < m ==> keys@[u] == (#[trigger] points@[u]).key,
                forall|u: int|
                    0 <= u < points@.len() ==> ((#[trigger] points@[u]).idx as int) < n as int,
                n == backends@.len(),
                ring@.len() == t,
                forall|u: int| 0 <= u < t ==> ring@[u] == points@[(#[trigger] order@[u]) as int],
            decreases order@.len() - t,
        {
            ring.push(points[order[t]]);
            t = t + 1;
        }
        let sel = ConsistentSelector { backends: crate::strategy::fewest_connections::copy_backends(
            backends,
        ), ring };
        proof {
            assert forall|k1: int, k2: int| 0 <= k1 < k2 < sel.ring@.len() implies (
            #[trigger] sel.ring@[k1]).hash <= (#[trigger] sel.ring@[k2]).hash by {
                assert(crate::strategy::ordering::lex_less(
                    hashes@[order@[k1] as int],
                    keys@[order@[k1] as int],
                    order@[k1] as int,
                    hashes@[order@[k2] as int],
                    keys@[order@[k2] as int],
                    order@[k2] as int,
                ));
            }
            assert forall|k1: int| 0 <= k1 < sel.ring@.len() implies ((
            #[trigger] sel.ring@[k1]).idx as int) < sel.backends@.len() by {
                assert(sel.ring@[k1] == points@[order@[k1] as int]);
            }
            // The sorted order on positions carries over to the points,
            // witnessing the deterministic Ketama construction.
            assert(points@ == ring_points(backends@, backends@.len() as int));
            assert forall|t1: int, t2: int| 0 <= t1 < t2 < order@.len() implies
                crate::strategy::ordering::lex_less(
                points@[(#[trigger] order@[t1]) as int].hash,
                points@[order@[t1] as int].key,
                order@[t1] as int,
                points@[(#[trigger] order@[t2]) as int].hash,
                points@[order@[t2] as int].key,
                order@[t2] as int,
            ) by {
                assert(crate::strategy::ordering::lex_less(
                    hashes@[order@[t1] as int],
                    keys@[order@[t1] as int],
                    order@[t1] as int,
                    hashes@[order@[t2] as int],
                    keys@[order@[t2] as int],
                    order@[t2] as int,
                ));
            }
            assert(ring_built_from(sel.ring@, backends@)) by {
                assert(is_permutation(order@, points@.len() as int) && sel.ring@.len()
                    == points@.len() && (forall|t: int|
                    0 <= t < order@.len() ==> sel.ring@[t] == points@[(
                    #[trigger] order@[t]) as int]));
            }
        }
        Ok(sel)
    }
}

} // verus!

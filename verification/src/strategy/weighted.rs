//! Weighted selection: round robin, random, and FNV key hashing.
//!
//! The selector precomputes an expanded index array with one entry per
//! weight unit, so a uniform draw over the array realises the weights. The
//! first pick of an iterator is drawn from the expanded array; fallback
//! picks step over the unique backend array.

use vstd::prelude::*;

use crate::backend::{all_wf, Backend};
use crate::errors::ConfigError;
use crate::hashing::{fnv1a64, fnv1a64_spec, u64_le_bytes, u64_le_bytes_exec};

verus! {

/// Weighted expansions are capped at 2^16 entries.
pub const MAX_WEIGHT_ENTRIES: usize = 0x10000;

/// The expanded index array: position `i` repeated `weight_i` times.
pub open spec fn expansion(backends: Seq<Backend>) -> Seq<u16>
    decreases backends.len(),
{
    if backends.len() == 0 {
        Seq::empty()
    } else {
        expansion(backends.drop_last()) + Seq::new(
            backends.last().weight as nat,
            |k: int| (backends.len() - 1) as u16,
        )
    }
}

/// The total weight of a backend set.
pub open spec fn total_weight(backends: Seq<Backend>) -> int
    decreases backends.len(),
{
    if backends.len() == 0 {
        0
    } else {
        total_weight(backends.drop_last()) + backends.last().weight
    }
}

/// How many entries of the sequence hold `v`.
pub open spec fn count_u16(s: Seq<u16>, v: u16) -> int
    decreases s.len(),
{
    if s.len() == 0 {
        0
    } else {
        count_u16(s.drop_last(), v) + (if s.last() == v {
            1int
        } else {
            0int
        })
    }
}

proof fn lemma_count_concat(a: Seq<u16>, b: Seq<u16>, v: u16)
    ensures
        count_u16(a + b, v) == count_u16(a, v) + count_u16(b, v),
    decreases b.len(),
{
    if b.len() == 0 {
        assert(a + b =~= a);
    } else {
        lemma_count_concat(a, b.drop_last(), v);
        assert((a + b).drop_last() =~= a + b.drop_last());
    }
}

proof fn lemma_count_constant(n: nat, c: u16, v: u16)
    ensures
        count_u16(Seq::new(n, |k: int| c), v) == if c == v {
            n as int
        } else {
            0
        },
    decreases n,
{
    if n > 0 {
        lemma_count_constant((n - 1) as nat, c, v);
        assert(Seq::new(n, |k: int| c).drop_last() =~= Seq::new((n - 1) as nat, |k: int| c));
    }
}

/// Weight realisation: in the expanded array, position `i` occurs exactly
/// `weight_i` times, so a uniform draw over the array picks each backend
/// with probability proportional to its weight. Positions outside the set
/// do not occur at all.
pub proof fn lemma_expansion_counts(backends: Seq<Backend>, v: u16)
    requires
        backends.len() <= 0xFFFF,
    ensures
        v < backends.len() ==> count_u16(expansion(backends), v) == backends[v as int].weight,
        v >= backends.len() ==> count_u16(expansion(backends), v) == 0,
        expansion(backends).len() == total_weight(backends),
    decreases backends.len(),
{
    if backends.len() > 0 {
        lemma_expansion_counts(backends.drop_last(), v);
        let tail = Seq::new(backends.last().weight as nat, |k: int| (backends.len() - 1) as u16);
        lemma_count_concat(expansion(backends.drop_last()), tail, v);
        lemma_count_constant(backends.last().weight as nat, (backends.len() - 1) as u16, v);
    }
}

/// Every entry of the expanded array indexes into the backend array.
pub proof fn lemma_expansion_in_range(backends: Seq<Backend>)
    requires
        backends.len() <= 0xFFFF,
    ensures
        expansion(backends).len() == total_weight(backends),
        forall|k: int|
            0 <= k < expansion(backends).len() ==> ((#[trigger] expansion(backends)[k]) as int)
                < backends.len(),
    decreases backends.len(),
{
    if backends.len() > 0 {
        lemma_expansion_in_range(backends.drop_last());
        lemma_expansion_counts(backends, 0);
    }
}

/// With at least one backend, the expansion is non-empty.
pub proof fn lemma_expansion_nonempty(backends: Seq<Backend>)
    requires
        backends.len() > 0,
        all_wf(backends),
    ensures
        expansion(backends).len() >= 1,
    decreases backends.len(),
{
    if backends.len() == 1 {
        assert(backends.last().weight >= 1);
    } else {
        lemma_expansion_nonempty(backends.drop_last());
    }
}

/// With every weight 1, the expanded array is the identity permutation.
pub proof fn lemma_expansion_identity(backends: Seq<Backend>)
    requires
        backends.len() <= 0xFFFF,
        forall|i: int| 0 <= i < backends.len() ==> (#[trigger] backends[i]).weight == 1,
    ensures
        expansion(backends) =~= Seq::new(backends.len(), |i: int| i as u16),
    decreases backends.len(),
{
    if backends.len() > 0 {
        lemma_expansion_identity(backends.drop_last());
    }
}

/// The backend index of the `k`-th pick of a round-robin iterator whose
/// first draw read cursor value `cursor`, while the cursor does not wrap:
/// the first pick comes from the expanded array, fallbacks rotate over the
/// unique backend array.
pub open spec fn round_robin_pick(backends: Seq<Backend>, cursor: u64, k: int) -> int {
    if k == 0 {
        expansion(backends)[cursor as int % expansion(backends).len() as int] as int
    } else {
        (cursor as int + k) % backends.len() as int
    }
}

/// Some step among the first `n` picks reaches backend `j`.
pub open spec fn round_robin_covered(backends: Seq<Backend>, cursor: u64, j: int) -> bool {
    exists|k: int|
        0 <= k < backends.len() && #[trigger] round_robin_pick(backends, cursor, k) == j
}

/// Eventual coverage for unit-weight round robin: the first `|B|` picks of
/// one iterator visit every backend exactly once, in rotation. (With
/// weights above 1 this fails: the weighted first pick can coincide with a
/// fallback pick, and so can picks of a cursor that wraps around the
/// 64-bit space.)
pub proof fn lemma_round_robin_coverage(backends: Seq<Backend>, cursor: u64)
    requires
        1 <= backends.len() <= 0xFFFF,
        forall|i: int| 0 <= i < backends.len() ==> (#[trigger] backends[i]).weight == 1,
    ensures
        forall|k: int|
            0 <= k < backends.len() ==> 0 <= #[trigger] round_robin_pick(backends, cursor, k)
                < backends.len(),
        forall|j: int| 0 <= j < backends.len() ==> #[trigger] round_robin_covered(
            backends,
            cursor,
            j,
        ),
        forall|k1: int, k2: int|
            0 <= k1 < k2 < backends.len() ==> round_robin_pick(backends, cursor, k1)
                != round_robin_pick(backends, cursor, k2),
{
    let n = backends.len() as int;
    let c = cursor as int;
    lemma_expansion_identity(backends);
    vstd::arithmetic::div_mod::lemma_mod_bound(c, n);
    // With unit weights the first pick equals the rotation formula, so
    // every pick is (cursor + k) % n.
    assert forall|k: int| 0 <= k < n implies #[trigger] round_robin_pick(backends, cursor, k) == (
    c + k) % n by {
        if k == 0 {
            assert(expansion(backends)[c % n] == (c % n) as u16);
        }
        vstd::arithmetic::div_mod::lemma_mod_bound(c + k, n);
    }
    assert forall|j: int| 0 <= j < n implies #[trigger] round_robin_covered(
        backends,
        cursor,
        j,
    ) by {
        let r = c % n;
        let q = c / n;
        vstd::arithmetic::div_mod::lemma_fundamental_div_mod(c, n);
        let k = if j >= r {
            j - r
        } else {
            j + n - r
        };
        if j >= r {
            vstd::arithmetic::div_mod::lemma_fundamental_div_mod_converse(c + k, n, q, j);
        } else {
            assert(c + k == (q + 1) * n + j) by (nonlinear_arith)
                requires
                    c == q * n + r,
                    k == j + n - r,
            ;
            vstd::arithmetic::div_mod::lemma_fundamental_div_mod_converse(c + k, n, q + 1, j);
        }
        assert(round_robin_pick(backends, cursor, k) == j);
    }
    assert forall|k1: int, k2: int| 0 <= k1 < k2 < n implies round_robin_pick(backends, cursor, k1)
        != round_robin_pick(backends, cursor, k2) by {
        if round_robin_pick(backends, cursor, k1) == round_robin_pick(backends, cursor, k2) {
            let a = c + k1;
            let b = c + k2;
            vstd::arithmetic::div_mod::lemma_fundamental_div_mod(a, n);
            vstd::arithmetic::div_mod::lemma_fundamental_div_mod(b, n);
            vstd::arithmetic::div_mod::lemma_mod_bound(a, n);
            vstd::arithmetic::div_mod::lemma_mod_bound(b, n);
            let qa = a / n;
            let qb = b / n;
            assert(b - a == (qb - qa) * n) by (nonlinear_arith)
                requires
                    a == qa * n + a % n,
                    b == qb * n + b % n,
                    a % n == b % n,
            ;
            assert(false) by (nonlinear_arith)
                requires
                    b - a == (qb - qa) * n,
                    0 < b - a < n,
            ;
        }
    }
}

/// How a weighted iterator draws its next index.
#[derive(Clone, Copy, PartialEq, Eq, Structural, Debug)]
pub enum Algorithm {
    /// A shared cursor that every draw reads and increments.
    RoundRobin,
    /// A deterministic generator seeded from the backend set.
    Random,
    /// FNV-1a of the request key; fallbacks rehash the previous index.
    FNVHash,
}

/// The draw state of a weighted selector.
#[derive(Clone, Copy, PartialEq, Eq, Structural, Debug)]
pub enum DrawState {
    /// The round-robin cursor.
    Cursor { cursor: u64 },
    /// The generator state of the random algorithm.
    Generator { state: u64 },
    /// Key hashing needs no state.
    Stateless,
}

/// The cursor held in a draw state.
pub open spec fn cursor_of(d: DrawState) -> u64 {
    match d {
        DrawState::Cursor { cursor } => cursor,
        _ => 0,
    }
}

/// The generator state held in a draw state.
pub open spec fn state_of(d: DrawState) -> u64 {
    match d {
        DrawState::Generator { state } => state,
        _ => 0,
    }
}

/// One xorshift step; the generator behind the random algorithm.
pub open spec fn xorshift_spec(s: u64) -> u64 {
    let a = s ^ (s >> 12);
    let b = a ^ (a << 25);
    b ^ (b >> 27)
}

/// The value drawn from a generator state.
pub open spec fn draw_of(s: u64) -> u64 {
    s.wrapping_mul(0x2545_f491_4f6c_dd1d)
}

/// Advances the xorshift generator.
pub fn xorshift(s: u64) -> (r: u64)
    ensures
        r == xorshift_spec(s),
{
    let a = s ^ (s >> 12u64);
    let b = a ^ (a << 25u64);
    b ^ (b >> 27u64)
}

/// The generator seed derived from a backend set.
pub open spec fn seed_spec(backends: Seq<Backend>) -> u64
    decreases backends.len(),
{
    if backends.len() == 0 {
        0x9e37_79b9_7f4a_7c15
    } else {
        xorshift_spec(seed_spec(backends.drop_last()) ^ backends.last().hash_key)
    }
}

/// A weighted selector: the unique backend array, the expanded index array,
/// and the draw state of its algorithm.
pub struct WeightedSelector {
    pub backends: Vec<Backend>,
    pub weighted: Vec<u16>,
    pub algorithm: Algorithm,
    pub draw: DrawState,
}

impl WeightedSelector {
    /// Well-formed: the expanded array is the weight expansion of the
    /// backend array, capped at 2^16 entries, and the draw state matches
    /// the algorithm.
    pub open spec fn wf(self) -> bool {
        &&& self.backends@.len() <= 0xFFFF
        &&& self.weighted@.len() <= MAX_WEIGHT_ENTRIES
        &&& self.weighted@ == expansion(self.backends@)
        &&& all_wf(self.backends@)
        &&& forall|k: int|
            0 <= k < self.weighted@.len() ==> ((#[trigger] self.weighted@[k]) as int)
                < self.backends@.len()
        &&& match self.algorithm {
            Algorithm::RoundRobin => self.draw is Cursor,
            Algorithm::Random => self.draw is Generator,
            Algorithm::FNVHash => self.draw is Stateless,
        }
    }

    /// Builds the selector for a backend array.
    ///
    /// Fails exactly when the backend array or its weighted expansion would
    /// exceed the 2^16 cap.
    pub fn new(backends: Vec<Backend>, algorithm: Algorithm) -> (r: Result<
        WeightedSelector,
        ConfigError,
    >)
        requires
            all_wf(backends@),
        ensures
            r is Ok ==> ({
                let s = r->Ok_0;
                &&& s.wf()
                &&& s.backends@ == backends@
                &&& s.algorithm == algorithm
                &&& s.draw == initial_draw(algorithm, backends@)
            }),
            r is Ok <==> backends@.len() <= 0xFFFF && total_weight(backends@)
                <= MAX_WEIGHT_ENTRIES,
            r is Err ==> r->Err_0 == ConfigError::TooManyWeightEntries,
    {
        if backends.len() > 0xFFFF {
            return Err(ConfigError::TooManyWeightEntries);
        }
        let mut weighted: Vec<u16> = Vec::new();
        let mut i: usize = 0;
        while i < backends.len()
            invariant
                i <= backends@.len(),
                backends@.len() <= 0xFFFF,
                all_wf(backends@),
                weighted@ == expansion(backends@.take(i as int)),
                weighted@.len() == total_weight(backends@.take(i as int)),
                weighted@.len() <= MAX_WEIGHT_ENTRIES,
            decreases backends@.len() - i,
        {
            let w: u16 = backends[i].weight;
            if MAX_WEIGHT_ENTRIES - weighted.len() < w as usize {
                proof {
                    lemma_total_weight_monotone(backends@, i as int);
                }
                return Err(ConfigError::TooManyWeightEntries);
            }
            let mut k: u16 = 0;
            while k < w
                invariant
                    k <= w,
                    i < backends@.len(),
                    backends@.len() <= 0xFFFF,
                    weighted@.len() == expansion(backends@.take(i as int)).len() + k,
                    expansion(backends@.take(i as int)).len() + w <= MAX_WEIGHT_ENTRIES,
                    weighted@ == expansion(backends@.take(i as int)) + Seq::new(
                        k as nat,
                        |j: int| i as u16,
                    ),
                decreases w - k,
            {
                weighted.push(i as u16);
                proof {
                    assert(weighted@ =~= expansion(backends@.take(i as int)) + Seq::new(
                        (k + 1) as nat,
                        |j: int| i as u16,
                    ));
                }
                k = k + 1;
            }
            proof {
                assert(backends@.take(i + 1).drop_last() =~= backends@.take(i as int));
                assert(backends@.take(i + 1).last() == backends@[i as int]);
                assert(weighted@ =~= expansion(backends@.take(i + 1)));
            }
            i = i + 1;
        }
        proof {
            assert(backends@.take(backends@.len() as int) =~= backends@);
            lemma_expansion_in_range(backends@);
        }
        let draw = match algorithm {
            Algorithm::RoundRobin => DrawState::Cursor { cursor: 0 },
            Algorithm::Random => DrawState::Generator { state: seed(&backends) },
            Algorithm::FNVHash => DrawState::Stateless,
        };
        Ok(WeightedSelector { backends, weighted, algorithm, draw })
    }

    /// Starts a fresh iterator for a request key: draws the starting index
    /// from the algorithm.
    pub fn iter(&mut self, key: &[u8]) -> (r: WeightedIterator)
        requires
            old(self).wf(),
        ensures
            final(self).wf(),
            final(self).backends@ == old(self).backends@,
            final(self).weighted@ == old(self).weighted@,
            final(self).algorithm == old(self).algorithm,
            r.first,
            r.index == draw_index(*old(self), key@),
            final(self).draw == advanced_draw(*old(self)),
    {
        let index: u64 = self.draw_next(key);
        WeightedIterator { index, first: true }
    }

    /// Draws the next raw index from the algorithm state.
    fn draw_next(&mut self, key: &[u8]) -> (r: u64)
        requires
            old(self).wf(),
        ensures
            final(self).wf(),
            final(self).backends@ == old(self).backends@,
            final(self).weighted@ == old(self).weighted@,
            final(self).algorithm == old(self).algorithm,
            r == draw_index(*old(self), key@),
            final(self).draw == advanced_draw(*old(self)),
    {
        match self.draw {
            DrawState::Cursor { cursor } => {
                self.draw = DrawState::Cursor { cursor: cursor.wrapping_add(1) };
                cursor
            },
            DrawState::Generator { state } => {
                let next = xorshift(state);
                self.draw = DrawState::Generator { state: next };
                next.wrapping_mul(0x2545_f491_4f6c_dd1d)
            },
            DrawState::Stateless => fnv1a64(key),
        }
    }
}

/// The draw state a freshly built selector starts with.
pub open spec fn initial_draw(algorithm: Algorithm, backends: Seq<Backend>) -> DrawState {
    match algorithm {
        Algorithm::RoundRobin => DrawState::Cursor { cursor: 0 },
        Algorithm::Random => DrawState::Generator { state: seed_spec(backends) },
        Algorithm::FNVHash => DrawState::Stateless,
    }
}

/// The raw index the next draw of the selector yields for `key`.
pub open spec fn draw_index(sel: WeightedSelector, key: Seq<u8>) -> u64 {
    match sel.algorithm {
        Algorithm::RoundRobin => cursor_of(sel.draw),
        Algorithm::Random => draw_of(xorshift_spec(state_of(sel.draw))),
        Algorithm::FNVHash => fnv1a64_spec(key),
    }
}

/// The draw state after one draw.
pub open spec fn advanced_draw(sel: WeightedSelector) -> DrawState {
    match sel.algorithm {
        Algorithm::RoundRobin => DrawState::Cursor {
            cursor: cursor_of(sel.draw).wrapping_add(1),
        },
        Algorithm::Random => DrawState::Generator { state: xorshift_spec(state_of(sel.draw)) },
        Algorithm::FNVHash => DrawState::Stateless,
    }
}

/// Computes the generator seed for a backend set.
fn seed(backends: &Vec<Backend>) -> (r: u64)
    ensures
        r == seed_spec(backends@),
{
    let mut s: u64 = 0x9e37_79b9_7f4a_7c15;
    let mut i: usize = 0;
    while i < backends.len()
        invariant
            i <= backends@.len(),
            s == seed_spec(backends@.take(i as int)),
        decreases backends@.len() - i,
    {
        s = xorshift(s ^ backends[i].hash_key);
        proof {
            assert(backends@.take(i + 1).drop_last() =~= backends@.take(i as int));
        }
        i = i + 1;
    }
    proof {
        assert(backends@.take(backends@.len() as int) =~= backends@);
    }
    s
}

proof fn lemma_total_weight_monotone(backends: Seq<Backend>, i: int)
    requires
        0 <= i < backends.len(),
        all_wf(backends),
    ensures
        total_weight(backends) >= total_weight(backends.take(i)) + backends[i].weight,
    decreases backends.len() - i,
{
    if i + 1 == backends.len() {
        assert(backends.drop_last() =~= backends.take(i));
    } else {
        lemma_total_weight_last_nonneg(backends);
        lemma_total_weight_monotone(backends.drop_last(), i);
        assert(backends.drop_last().take(i) =~= backends.take(i));
    }
}

proof fn lemma_total_weight_last_nonneg(backends: Seq<Backend>)
    requires
        backends.len() > 0,
    ensures
        total_weight(backends) >= total_weight(backends.drop_last()),
{
}

/// The backend a fresh iterator's first pick lands on for `key`: the
/// weighted draw of the algorithm's next index, or `None` over an empty
/// backend set.
pub open spec fn weighted_first(sel: WeightedSelector, key: Seq<u8>) -> Option<Backend> {
    if sel.backends@.len() == 0 || sel.weighted@.len() == 0 {
        None
    } else {
        Some(
            sel.backends@[sel.weighted@[draw_index(sel, key) as int % sel.weighted@.len() as int] as int],
        )
    }
}

/// A per-request iterator over a weighted selector.
pub struct WeightedIterator {
    /// The unbounded index seed.
    pub index: u64,
    /// Whether the next pick is the first (weighted) one.
    pub first: bool,
}

/// The index a fallback step of the iterator moves to.
pub open spec fn fallback_index(sel: WeightedSelector, index: u64) -> u64 {
    match sel.algorithm {
        Algorithm::RoundRobin => cursor_of(sel.draw),
        Algorithm::Random => draw_of(xorshift_spec(state_of(sel.draw))),
        Algorithm::FNVHash => fnv1a64_spec(u64_le_bytes(index)),
    }
}

impl WeightedIterator {
    /// The next candidate backend.
    ///
    /// The first pick is drawn from the weighted expansion, so it follows
    /// the weights; fallbacks step over the unique backend array. Every
    /// pick is a backend of the selector.
    pub fn next(&mut self, sel: &mut WeightedSelector) -> (r: Option<Backend>)
        requires
            old(sel).wf(),
        ensures
            final(sel).wf(),
            final(sel).backends@ == old(sel).backends@,
            final(sel).weighted@ == old(sel).weighted@,
            final(sel).algorithm == old(sel).algorithm,
            old(sel).backends@.len() == 0 ==> r is None && *final(sel) == *old(sel)
                && *final(self) == *old(self),
            old(sel).backends@.len() > 0 && old(self).first ==> ({
                let w = old(sel).weighted@.len() as int;
                let pick = old(sel).weighted@[old(self).index as int % w] as int;
                &&& r == Some(old(sel).backends@[pick])
                &&& !final(self).first
                &&& final(self).index == old(self).index
                &&& *final(sel) == *old(sel)
            }),
            old(sel).backends@.len() > 0 && !old(self).first ==> ({
                let idx = fallback_index(*old(sel), old(self).index);
                let n = old(sel).backends@.len() as int;
                &&& r == Some(old(sel).backends@[idx as int % n])
                &&& !final(self).first
                &&& final(self).index == idx
                &&& final(sel).draw == advanced_draw(*old(sel))
            }),
            r is Some ==> old(sel).backends@.contains(r->Some_0),
    {
        if sel.backends.len() == 0 {
            return None;
        }
        if self.first {
            self.first = false;
            proof {
                lemma_expansion_nonempty(sel.backends@);
            }
            let w = sel.weighted.len();
            let pick = sel.weighted[(self.index % (w as u64)) as usize];
            let b = sel.backends[pick as usize];
            proof {
                let picked = old(sel).weighted@[old(self).index as int % (
                old(sel).weighted@.len() as int)] as int;
                assert(old(sel).backends@.contains(old(sel).backends@[picked]));
            }
            Some(b)
        } else {
            let idx: u64 = match sel.draw {
                DrawState::Cursor { cursor } => {
                    self.index = cursor;
                    sel.draw = DrawState::Cursor { cursor: cursor.wrapping_add(1) };
                    cursor
                },
                DrawState::Generator { state } => {
                    let next = xorshift(state);
                    sel.draw = DrawState::Generator { state: next };
                    self.index = next.wrapping_mul(0x2545_f491_4f6c_dd1d);
                    self.index
                },
                DrawState::Stateless => {
                    let bytes = u64_le_bytes_exec(self.index);
                    self.index = fnv1a64(bytes.as_slice());
                    self.index
                },
            };
            let n = sel.backends.len();
            let b = sel.backends[(idx % (n as u64)) as usize];
            proof {
                let picked = fallback_index(*old(sel), old(self).index) as int % (
                old(sel).backends@.len() as int);
                assert(old(sel).backends@.contains(old(sel).backends@[picked]));
            }
            Some(b)
        }
    }
}

} // verus!

//! The adaptive strategy: a cheap descriptor naming one of six selection
//! policies, and the selector built for whichever policy is current.

use vstd::prelude::*;

use crate::backend::{all_wf, Backend};
use crate::errors::ConfigError;
use crate::metrics::MetricsTable;
use crate::strategy::consistent::{Consistent, ConsistentSelector};
use crate::strategy::fastest_server::{FastestServer, FastestServerIter, FastestServerSelector};
use crate::strategy::fewest_connections::{
    copy_backends, FewestConnections, FewestConnectionsIter, FewestConnectionsSelector,
};
use crate::strategy::fnv_hash::FNVHash;
use crate::strategy::ordering::sorted_selection;
use crate::strategy::random::Random;
use crate::strategy::round_robin::RoundRobin;
use crate::strategy::weighted::{
    initial_draw, total_weight, Algorithm, WeightedIterator, WeightedSelector, MAX_WEIGHT_ENTRIES,
};
use crate::strategy::BackendIter;

verus! {

/// The default selector rebuild period of the dynamic strategies, in
/// milliseconds.
pub const DYNAMIC_REBUILD_FREQUENCY_MS: u64 = 200;

/// One of the six selection policies.
#[derive(Clone, Copy, PartialEq, Eq, Structural, Debug, Default)]
pub enum Adaptive {
    #[default]
    RoundRobin,
    Random,
    FNVHash,
    Consistent,
    FewestConnections,
    FastestServer,
}

impl Adaptive {
    /// The policy's name, as the control plane spells it.
    pub fn name(&self) -> (r: String)
        ensures
            self is RoundRobin ==> r@ == "RoundRobin"@,
            self is Random ==> r@ == "Random"@,
            self is FNVHash ==> r@ == "FNVHash"@,
            self is Consistent ==> r@ == "Consistent"@,
            self is FewestConnections ==> r@ == "FewestConnections"@,
            self is FastestServer ==> r@ == "FastestServer"@,
    {
        match self {
            Adaptive::RoundRobin => "RoundRobin".to_owned(),
            Adaptive::Random => "Random".to_owned(),
            Adaptive::FNVHash => "FNVHash".to_owned(),
            Adaptive::Consistent => "Consistent".to_owned(),
            Adaptive::FewestConnections => "FewestConnections".to_owned(),
            Adaptive::FastestServer => "FastestServer".to_owned(),
        }
    }

    /// How often the selector should be rebuilt: the dynamic strategies
    /// resort by live metrics, the others never go stale.
    pub fn rebuild_frequency(&self) -> (r: Option<u64>)
        ensures
            r == self.rebuild_frequency_spec(),
    {
        match self {
            Adaptive::FewestConnections => Some(DYNAMIC_REBUILD_FREQUENCY_MS),
            Adaptive::FastestServer => Some(DYNAMIC_REBUILD_FREQUENCY_MS),
            _ => None,
        }
    }

    /// The rebuild period of each policy.
    pub open spec fn rebuild_frequency_spec(self) -> Option<u64> {
        match self {
            Adaptive::FewestConnections => Some(DYNAMIC_REBUILD_FREQUENCY_MS),
            Adaptive::FastestServer => Some(DYNAMIC_REBUILD_FREQUENCY_MS),
            _ => None,
        }
    }

    /// Builds the selector for this policy over the given snapshot, with
    /// the per-backend metrics the dynamic strategies sort by.
    ///
    /// Fails exactly when the snapshot breaks the 2^16 size caps.
    pub fn build_backend_selector(
        &self,
        backends: &Vec<Backend>,
        connection_counts: &Vec<u64>,
        latencies: &Vec<u64>,
    ) -> (r: Result<AdaptiveSelector, ConfigError>)
        requires
            all_wf(backends@),
            connection_counts@.len() == backends@.len(),
            latencies@.len() == backends@.len(),
        ensures
            r is Ok ==> built_from(
                r->Ok_0,
                *self,
                backends@,
                connection_counts@,
                latencies@,
            ),
            r is Ok <==> backends@.len() <= 0xFFFF && ((self is FewestConnections || self
                is FastestServer || self is Consistent) || total_weight(backends@)
                <= MAX_WEIGHT_ENTRIES as int),
            r is Err ==> r->Err_0 == ConfigError::TooManyWeightEntries,
    {
        match self {
            Adaptive::RoundRobin => {
                match RoundRobin.build_backend_selector(copy_backends(backends)) {
                    Ok(s) => Ok(AdaptiveSelector::RoundRobin(s)),
                    Err(e) => Err(e),
                }
            },
            Adaptive::Random => {
                match Random.build_backend_selector(copy_backends(backends)) {
                    Ok(s) => Ok(AdaptiveSelector::Random(s)),
                    Err(e) => Err(e),
                }
            },
            Adaptive::FNVHash => {
                match FNVHash.build_backend_selector(copy_backends(backends)) {
                    Ok(s) => Ok(AdaptiveSelector::FNVHash(s)),
                    Err(e) => Err(e),
                }
            },
            Adaptive::Consistent => {
                match Consistent.build_backend_selector(backends) {
                    Ok(s) => Ok(AdaptiveSelector::Consistent(s)),
                    Err(e) => Err(e),
                }
            },
            Adaptive::FewestConnections => {
                if backends.len() > 0xFFFF {
                    Err(ConfigError::TooManyWeightEntries)
                } else {
                    Ok(
                        AdaptiveSelector::FewestConnections(
                            FewestConnections.build_backend_selector(
                                backends,
                                connection_counts,
                            ),
                        ),
                    )
                }
            },
            Adaptive::FastestServer => {
                if backends.len() > 0xFFFF {
                    Err(ConfigError::TooManyWeightEntries)
                } else {
                    Ok(
                        AdaptiveSelector::FastestServer(
                            FastestServer.build_backend_selector(backends, latencies),
                        ),
                    )
                }
            },
        }
    }

    /// Builds the selector reading the metrics out of the table, in
    /// snapshot order.
    pub fn build_with_metrics(&self, backends: &Vec<Backend>, metrics: &MetricsTable) -> (r:
        Result<AdaptiveSelector, ConfigError>)
        requires
            all_wf(backends@),
        ensures
            r is Ok ==> selector_wf(r->Ok_0) && selector_backends_from(r->Ok_0, backends@),
            r is Ok <==> backends@.len() <= 0xFFFF && ((self is FewestConnections || self
                is FastestServer || self is Consistent) || total_weight(backends@)
                <= MAX_WEIGHT_ENTRIES as int),
            r is Err ==> r->Err_0 == ConfigError::TooManyWeightEntries,
    {
        let mut counts: Vec<u64> = Vec::new();
        let mut lats: Vec<u64> = Vec::new();
        let mut i: usize = 0;
        while i < backends.len()
            invariant
                i <= backends@.len(),
                counts@.len() == i,
                lats@.len() == i,
            decreases backends@.len() - i,
        {
            counts.push(metrics.connection_count_of(backends[i].hash_key));
            lats.push(metrics.avg_latency_of(backends[i].hash_key));
            i = i + 1;
        }
        let r = self.build_backend_selector(backends, &counts, &lats);
        proof {
            if r is Ok {
                lemma_built_from_backends(r->Ok_0, *self, backends@, counts@, lats@);
            }
        }
        r
    }
}

/// The selector of whichever policy is current.
pub enum AdaptiveSelector {
    RoundRobin(WeightedSelector),
    Random(WeightedSelector),
    FNVHash(WeightedSelector),
    Consistent(ConsistentSelector),
    FewestConnections(FewestConnectionsSelector),
    FastestServer(FastestServerSelector),
}

/// The backend array a selector serves from.
pub open spec fn selector_backends(sel: AdaptiveSelector) -> Seq<Backend> {
    match sel {
        AdaptiveSelector::RoundRobin(s) => s.backends@,
        AdaptiveSelector::Random(s) => s.backends@,
        AdaptiveSelector::FNVHash(s) => s.backends@,
        AdaptiveSelector::Consistent(s) => s.backends@,
        AdaptiveSelector::FewestConnections(s) => s.backends@,
        AdaptiveSelector::FastestServer(s) => s.backends@,
    }
}

/// Well-formedness of the selector of whichever policy is current.
pub open spec fn selector_wf(sel: AdaptiveSelector) -> bool {
    match sel {
        AdaptiveSelector::RoundRobin(s) => s.wf(),
        AdaptiveSelector::Random(s) => s.wf(),
        AdaptiveSelector::FNVHash(s) => s.wf(),
        AdaptiveSelector::Consistent(s) => s.wf(),
        AdaptiveSelector::FewestConnections(s) => all_wf(s.backends@),
        AdaptiveSelector::FastestServer(s) => all_wf(s.backends@),
    }
}

/// The selector serves exactly the backends of `snapshot` (for the sorted
/// strategies, as a permutation of it).
pub open spec fn selector_backends_from(sel: AdaptiveSelector, snapshot: Seq<Backend>) -> bool {
    &&& selector_backends(sel).len() == snapshot.len()
    &&& forall|b: Backend| selector_backends(sel).contains(b) ==> snapshot.contains(b)
    &&& forall|b: Backend| snapshot.contains(b) ==> selector_backends(sel).contains(b)
}

/// What `build_backend_selector` guarantees of the selector it built for
/// each policy.
pub open spec fn built_from(
    sel: AdaptiveSelector,
    strategy: Adaptive,
    snapshot: Seq<Backend>,
    connection_counts: Seq<u64>,
    latencies: Seq<u64>,
) -> bool {
    match strategy {
        Adaptive::RoundRobin => sel matches AdaptiveSelector::RoundRobin(s) && s.wf()
            && s.backends@ == snapshot && s.algorithm == Algorithm::RoundRobin && s.draw
            == initial_draw(Algorithm::RoundRobin, snapshot),
        Adaptive::Random => sel matches AdaptiveSelector::Random(s) && s.wf() && s.backends@
            == snapshot && s.algorithm == Algorithm::Random,
        Adaptive::FNVHash => sel matches AdaptiveSelector::FNVHash(s) && s.wf() && s.backends@
            == snapshot && s.algorithm == Algorithm::FNVHash,
        Adaptive::Consistent => sel matches AdaptiveSelector::Consistent(s) && s.wf()
            && s.backends@ == snapshot,
        Adaptive::FewestConnections => sel matches AdaptiveSelector::FewestConnections(s)
            && all_wf(s.backends@) && sorted_selection(s.backends@, snapshot, connection_counts),
        Adaptive::FastestServer => sel matches AdaptiveSelector::FastestServer(s) && all_wf(
            s.backends@,
        ) && sorted_selection(s.backends@, snapshot, latencies),
    }
}

/// A selector built for any policy serves the snapshot's backends.
pub proof fn lemma_built_from_backends(
    sel: AdaptiveSelector,
    strategy: Adaptive,
    snapshot: Seq<Backend>,
    connection_counts: Seq<u64>,
    latencies: Seq<u64>,
)
    requires
        built_from(sel, strategy, snapshot, connection_counts, latencies),
        snapshot.len() <= usize::MAX,
    ensures
        selector_wf(sel),
        selector_backends_from(sel, snapshot),
{
    match strategy {
        Adaptive::FewestConnections => {
            let s = sel->FewestConnections_0;
            crate::strategy::ordering::lemma_sorted_selection_coverage(
                s.backends@,
                snapshot,
                connection_counts,
            );
        },
        Adaptive::FastestServer => {
            let s = sel->FastestServer_0;
            crate::strategy::ordering::lemma_sorted_selection_coverage(
                s.backends@,
                snapshot,
                latencies,
            );
        },
        _ => {},
    }
}

/// The per-request iterator of whichever policy is current.
pub enum AdaptiveIter {
    Weighted(WeightedIterator),
    Consistent(crate::strategy::consistent::ConsistentIter),
    FewestConnections(FewestConnectionsIter),
    FastestServer(FastestServerIter),
}

/// Whether two selectors carry the same policy's selector.
pub open spec fn same_shape(a: AdaptiveSelector, b: AdaptiveSelector) -> bool {
    match a {
        AdaptiveSelector::RoundRobin(_) => b is RoundRobin,
        AdaptiveSelector::Random(_) => b is Random,
        AdaptiveSelector::FNVHash(_) => b is FNVHash,
        AdaptiveSelector::Consistent(_) => b is Consistent,
        AdaptiveSelector::FewestConnections(_) => b is FewestConnections,
        AdaptiveSelector::FastestServer(_) => b is FastestServer,
    }
}

/// Where a fresh iterator for `key` starts, per policy: the weighted
/// strategies draw their starting index from the algorithm, the
/// consistent ring starts at the successor of the key's hash, and the
/// sorted strategies start at the front.
pub open spec fn iter_starts(it: AdaptiveIter, sel: AdaptiveSelector, key: Seq<u8>) -> bool {
    match sel {
        AdaptiveSelector::RoundRobin(s) => it matches AdaptiveIter::Weighted(w) && w.first
            && w.index == crate::strategy::weighted::draw_index(s, key),
        AdaptiveSelector::Random(s) => it matches AdaptiveIter::Weighted(w) && w.first && w.index
            == crate::strategy::weighted::draw_index(s, key),
        AdaptiveSelector::FNVHash(s) => it matches AdaptiveIter::Weighted(w) && w.first && w.index
            == crate::strategy::weighted::draw_index(s, key),
        AdaptiveSelector::Consistent(s) => it matches AdaptiveIter::Consistent(c) && c.pos
            == crate::strategy::consistent::start_position(s, key),
        AdaptiveSelector::FewestConnections(_) => it matches AdaptiveIter::FewestConnections(f)
            && f.index == 0,
        AdaptiveSelector::FastestServer(_) => it matches AdaptiveIter::FastestServer(f) && f.index
            == 0,
    }
}

/// The draw state of the selector's algorithm: the round-robin cursor or
/// the random generator; the other policies carry none.
pub open spec fn selector_draw(sel: AdaptiveSelector) -> crate::strategy::weighted::DrawState {
    match sel {
        AdaptiveSelector::RoundRobin(s) => s.draw,
        AdaptiveSelector::Random(s) => s.draw,
        AdaptiveSelector::FNVHash(s) => s.draw,
        _ => crate::strategy::weighted::DrawState::Stateless,
    }
}

/// The draw state after the one draw a fresh iterator makes.
pub open spec fn selector_draw_after_pick(sel: AdaptiveSelector) -> crate::strategy::weighted::DrawState {
    match sel {
        AdaptiveSelector::RoundRobin(s) => crate::strategy::weighted::advanced_draw(s),
        AdaptiveSelector::Random(s) => crate::strategy::weighted::advanced_draw(s),
        AdaptiveSelector::FNVHash(s) => crate::strategy::weighted::advanced_draw(s),
        _ => crate::strategy::weighted::DrawState::Stateless,
    }
}

/// The expanded weight array of the selector, where it has one.
pub open spec fn selector_weighted(sel: AdaptiveSelector) -> Seq<u16> {
    match sel {
        AdaptiveSelector::RoundRobin(s) => s.weighted@,
        AdaptiveSelector::Random(s) => s.weighted@,
        AdaptiveSelector::FNVHash(s) => s.weighted@,
        _ => Seq::empty(),
    }
}

/// The first candidate the strategy's iteration yields for `key`, before
/// health gating: the weighted draw, the ring successor of the key's
/// hash, or the front of the presorted array; `None` over an empty
/// backend set.
pub open spec fn first_candidate(sel: AdaptiveSelector, key: Seq<u8>) -> Option<Backend> {
    match sel {
        AdaptiveSelector::RoundRobin(s) => crate::strategy::weighted::weighted_first(s, key),
        AdaptiveSelector::Random(s) => crate::strategy::weighted::weighted_first(s, key),
        AdaptiveSelector::FNVHash(s) => crate::strategy::weighted::weighted_first(s, key),
        AdaptiveSelector::Consistent(s) => crate::strategy::consistent::consistent_first_pick(
            s,
            key,
        ),
        AdaptiveSelector::FewestConnections(s) => if s.backends@.len() > 0 {
            Some(s.backends@[0])
        } else {
            None
        },
        AdaptiveSelector::FastestServer(s) => if s.backends@.len() > 0 {
            Some(s.backends@[0])
        } else {
            None
        },
    }
}

/// The pick a fresh weighted iterator in state `it` makes over `s`.
pub open spec fn weighted_pick(
    it: AdaptiveIter,
    s: crate::strategy::weighted::WeightedSelector,
) -> Option<Backend> {
    if it matches AdaptiveIter::Weighted(w) && w.first && s.backends@.len() > 0
        && s.weighted@.len() > 0 {
        let w = it->Weighted_0;
        Some(s.backends@[s.weighted@[w.index as int % s.weighted@.len() as int] as int])
    } else {
        None
    }
}

/// The pick a fresh iterator in state `it` makes over `sel`.
pub open spec fn pick_of_fresh(it: AdaptiveIter, sel: AdaptiveSelector) -> Option<Backend> {
    match sel {
        AdaptiveSelector::RoundRobin(s) => weighted_pick(it, s),
        AdaptiveSelector::Random(s) => weighted_pick(it, s),
        AdaptiveSelector::FNVHash(s) => weighted_pick(it, s),
        AdaptiveSelector::Consistent(s) => if it matches AdaptiveIter::Consistent(c)
            && s.ring@.len() > 0 {
            Some(s.backends@[s.ring@[it->Consistent_0.pos as int % s.ring@.len() as int].idx as int])
        } else {
            None
        },
        AdaptiveSelector::FewestConnections(s) => if it matches AdaptiveIter::FewestConnections(f)
            && f.index < s.backends@.len() {
            Some(s.backends@[it->FewestConnections_0.index as int])
        } else {
            None
        },
        AdaptiveSelector::FastestServer(s) => if it matches AdaptiveIter::FastestServer(f)
            && f.index < s.backends@.len() {
            Some(s.backends@[it->FastestServer_0.index as int])
        } else {
            None
        },
    }
}

/// Even rotation: under unit-weight round robin, the first candidate is
/// the backend at the cursor's position, and serving it advances the
/// cursor by exactly one - so successive selections walk the backend
/// array in order, giving each backend every `|B|`-th request.
pub proof fn lemma_round_robin_first_candidate(sel: AdaptiveSelector, key: Seq<u8>)
    requires
        sel matches AdaptiveSelector::RoundRobin(s) && s.wf() && s.algorithm
            == Algorithm::RoundRobin && s.backends@.len() > 0 && (forall|i: int|
            0 <= i < s.backends@.len() ==> (#[trigger] s.backends@[i]).weight == 1),
    ensures
        ({
            let s = sel->RoundRobin_0;
            let c = crate::strategy::weighted::cursor_of(s.draw);
            &&& first_candidate(sel, key) == Some(
                s.backends@[c as int % s.backends@.len() as int],
            )
            &&& selector_draw_after_pick(sel)
                == crate::strategy::weighted::DrawState::Cursor {
                cursor: c.wrapping_add(1),
            }
        }),
{
    let s = sel->RoundRobin_0;
    let n = s.backends@.len() as int;
    let c = crate::strategy::weighted::cursor_of(s.draw) as int;
    crate::strategy::weighted::lemma_expansion_identity(s.backends@);
    crate::strategy::weighted::lemma_expansion_in_range(s.backends@);
    vstd::arithmetic::div_mod::lemma_mod_bound(c, n);
    assert(s.weighted@[c % n] == (c % n) as u16);
}

/// A fresh iterator picks exactly the strategy's first candidate for the
/// key it was created with.
pub proof fn lemma_fresh_first_candidate(
    it: AdaptiveIter,
    sel0: AdaptiveSelector,
    sel1: AdaptiveSelector,
    key: Seq<u8>,
)
    requires
        selector_wf(sel0),
        iter_starts(it, sel0, key),
        fresh_iter(it, sel1),
        same_shape(sel1, sel0),
        selector_backends(sel1) == selector_backends(sel0),
        selector_weighted(sel1) == selector_weighted(sel0),
        (sel0 is Consistent || sel0 is FewestConnections || sel0 is FastestServer) ==> sel1
            == sel0,
    ensures
        pick_of_fresh(it, sel1) == first_candidate(sel0, key),
{
}

impl AdaptiveSelector {
    /// Starts a fresh iterator for a request key.
    pub fn iter(&mut self, key: &[u8]) -> (r: AdaptiveIter)
        requires
            selector_wf(*old(self)),
        ensures
            selector_wf(*final(self)),
            selector_backends(*final(self)) == selector_backends(*old(self)),
            same_shape(*final(self), *old(self)),
            selector_weighted(*final(self)) == selector_weighted(*old(self)),
            selector_draw(*final(self)) == selector_draw_after_pick(*old(self)),
            (*old(self) is Consistent || *old(self) is FewestConnections || *old(self)
                is FastestServer) ==> *final(self) == *old(self),
            fresh_iter(r, *final(self)),
            iter_matches(r, *final(self)),
            iter_starts(r, *old(self), key@),
    {
        match self {
            AdaptiveSelector::RoundRobin(s) => AdaptiveIter::Weighted(s.iter(key)),
            AdaptiveSelector::Random(s) => AdaptiveIter::Weighted(s.iter(key)),
            AdaptiveSelector::FNVHash(s) => AdaptiveIter::Weighted(s.iter(key)),
            AdaptiveSelector::Consistent(s) => AdaptiveIter::Consistent(s.iter(key)),
            AdaptiveSelector::FewestConnections(s) => AdaptiveIter::FewestConnections(
                s.iter(key),
            ),
            AdaptiveSelector::FastestServer(s) => AdaptiveIter::FastestServer(s.iter(key)),
        }
    }
}

/// A freshly created iterator: its shape matches the selector's, and it
/// stands at the start of its walk, so with a non-empty backend array its
/// first pick exists.
pub open spec fn fresh_iter(it: AdaptiveIter, sel: AdaptiveSelector) -> bool {
    match sel {
        AdaptiveSelector::RoundRobin(_) => it is Weighted && it->Weighted_0.first,
        AdaptiveSelector::Random(_) => it is Weighted && it->Weighted_0.first,
        AdaptiveSelector::FNVHash(_) => it is Weighted && it->Weighted_0.first,
        AdaptiveSelector::Consistent(_) => it is Consistent,
        AdaptiveSelector::FewestConnections(s) => it is FewestConnections
            && it->FewestConnections_0.index == 0 && it->FewestConnections_0.backends@
            == s.backends@,
        AdaptiveSelector::FastestServer(s) => it is FastestServer && it->FastestServer_0.index
            == 0 && it->FastestServer_0.backends@ == s.backends@,
    }
}

/// The iterator's shape matches the selector's.
pub open spec fn iter_matches(it: AdaptiveIter, sel: AdaptiveSelector) -> bool {
    match sel {
        AdaptiveSelector::RoundRobin(_) => it is Weighted,
        AdaptiveSelector::Random(_) => it is Weighted,
        AdaptiveSelector::FNVHash(_) => it is Weighted,
        AdaptiveSelector::Consistent(_) => it is Consistent,
        AdaptiveSelector::FewestConnections(s) => it is FewestConnections
            && it->FewestConnections_0.backends@ == s.backends@,
        AdaptiveSelector::FastestServer(s) => it is FastestServer && it->FastestServer_0.backends@
            == s.backends@,
    }
}

impl AdaptiveIter {
    /// The next candidate backend.
    ///
    /// Every pick is a backend of the selector, and a fresh iterator over a
    /// non-empty backend array always yields a first pick.
    pub fn next(&mut self, sel: &mut AdaptiveSelector) -> (r: Option<Backend>)
        requires
            selector_wf(*old(sel)),
            iter_matches(*old(self), *old(sel)),
        ensures
            selector_wf(*final(sel)),
            selector_backends(*final(sel)) == selector_backends(*old(sel)),
            same_shape(*final(sel), *old(sel)),
            selector_weighted(*final(sel)) == selector_weighted(*old(sel)),
            (*old(sel) is Consistent || *old(sel) is FewestConnections || *old(sel)
                is FastestServer) ==> *final(sel) == *old(sel),
            iter_matches(*final(self), *final(sel)),
            r is Some ==> selector_backends(*old(sel)).contains(r->Some_0),
            fresh_iter(*old(self), *old(sel)) ==> r == pick_of_fresh(*old(self), *old(sel)),
            fresh_iter(*old(self), *old(sel)) ==> selector_draw(*final(sel)) == selector_draw(
                *old(sel),
            ),
            fresh_iter(*old(self), *old(sel)) && selector_backends(*old(sel)).len() > 0 ==> r
                is Some,
    {
        match self {
            AdaptiveIter::Weighted(it) => {
                match sel {
                    AdaptiveSelector::RoundRobin(s) => it.next(s),
                    AdaptiveSelector::Random(s) => it.next(s),
                    AdaptiveSelector::FNVHash(s) => it.next(s),
                    _ => None,
                }
            },
            AdaptiveIter::Consistent(it) => {
                match sel {
                    AdaptiveSelector::Consistent(s) => {
                        let r = it.next(s);
                        proof {
                            if selector_backends(*old(sel)).len() > 0 {
                                assert(s.ring@.len() > 0 ==> r is Some);
                            }
                        }
                        r
                    },
                    _ => None,
                }
            },
            AdaptiveIter::FewestConnections(it) => it.next(),
            AdaptiveIter::FastestServer(it) => it.next(),
        }
    }
}

} // verus!

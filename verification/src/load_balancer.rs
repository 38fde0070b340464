//! The load balancer: a backend registry bound to a current strategy and
//! the selector built for it.
//!
//! `select` walks the selector's candidates, skipping duplicates within a
//! bounded number of steps, and returns the first ready backend. Swapping
//! the strategy is cheap: the heavy selector is only rebuilt by
//! `rebuild_selector`.

use vstd::prelude::*;

use crate::backend::Backend;
use crate::errors::ConfigError;
use crate::registry::{ready_spec, snapshot_index_of, Backends};
use crate::strategy::adaptive::{
    first_candidate, lemma_fresh_first_candidate, selector_backends, selector_backends_from,
    selector_draw, selector_draw_after_pick, selector_wf, Adaptive, AdaptiveSelector,
};
use crate::strategy::utils::contains_key;
use crate::strategy::weighted::{total_weight, MAX_WEIGHT_ENTRIES};
use vstd::string::StringSliceAdditionalSpecFns;

verus! {

/// A registry, the current strategy, and the selector built for it.
pub struct LoadBalancer {
    pub backends: Backends,
    pub strategy: Adaptive,
    pub selector: AdaptiveSelector,
}

/// Every backend of the snapshot is flagged ready.
pub open spec fn all_ready(b: Backends) -> bool {
    forall|i: int| 0 <= i < b.ready@.len() ==> b.ready@[i]
}

/// The selector serves the current snapshot (it is not stale).
pub open spec fn lb_synced(lb: LoadBalancer) -> bool {
    selector_backends_from(lb.selector, lb.backends.snapshot@)
}

/// Whether the strategy's first candidate for the key exists and is
/// flagged ready in the registry.
pub open spec fn first_ready(lb: LoadBalancer, key: Seq<u8>) -> bool {
    match first_candidate(lb.selector, key) {
        Some(b) => ready_spec(lb.backends, b),
        None => false,
    }
}

/// Some backend of the given addresses parses to this endpoint.
pub open spec fn addr_matches(b: Backend, addrs: Seq<String>) -> bool {
    exists|t: int|
        0 <= t < addrs.len() && vstd::utf8::encode_utf8((#[trigger] addrs[t])@)
            == crate::addr::endpoint_bytes(b.addr)
}

/// The published snapshot holds exactly the endpoints of the given
/// addresses: every snapshot entry is the weight-one parse of some
/// address, and every address's hash key is represented (duplicates are
/// dropped by hash key, the first occurrence winning).
pub open spec fn addresses_published(snapshot: Seq<Backend>, addrs: Seq<String>) -> bool {
    &&& snapshot.len() <= addrs.len()
    &&& forall|k: int|
        0 <= k < snapshot.len() ==> addr_matches(#[trigger] snapshot[k], addrs)
            && snapshot[k].weight == 1
    &&& forall|t: int|
        0 <= t < addrs.len() ==> crate::registry::key_covered(
            snapshot,
            crate::hashing::fnv1a64_spec(vstd::utf8::encode_utf8((#[trigger] addrs[t])@)),
        )
}

/// A backend of the snapshot is ready whenever every flag is set.
proof fn lemma_all_ready(b: Backends, backend: Backend)
    requires
        b.wf(),
        all_ready(b),
        b.snapshot@.contains(backend),
    ensures
        ready_spec(b, backend),
{
    crate::registry::lemma_snapshot_index(b.snapshot@, backend.hash_key);
    let w = choose|w: int| 0 <= w < b.snapshot@.len() && b.snapshot@[w] == backend;
    if snapshot_index_of(b.snapshot@, backend.hash_key) == -1 {
        assert(b.snapshot@[w].hash_key == backend.hash_key);
    }
}

impl LoadBalancer {
    /// Well-formed: the registry and the current selector are.
    pub open spec fn wf(self) -> bool {
        &&& self.backends.wf()
        &&& selector_wf(self.selector)
    }

    /// Binds a registry to a starting strategy and builds the first
    /// selector. Fails exactly when the snapshot breaks the 2^16 caps.
    pub fn from_backends_with_strategy(backends: Backends, strategy: Adaptive) -> (r: Result<
        LoadBalancer,
        ConfigError,
    >)
        requires
            backends.wf(),
        ensures
            r is Ok ==> ({
                let lb = r->Ok_0;
                &&& lb.wf()
                &&& lb_synced(lb)
                &&& lb.strategy == strategy
                &&& lb.backends == backends
            }),
            r is Ok <==> backends.snapshot@.len() <= 0xFFFF && ((strategy
                is FewestConnections || strategy is FastestServer || strategy is Consistent)
                || total_weight(backends.snapshot@) <= MAX_WEIGHT_ENTRIES as int),
            r is Err ==> r->Err_0 == ConfigError::TooManyWeightEntries,
    {
        let snapshot = backends.get_backend();
        match strategy.build_with_metrics(&snapshot, &backends.metrics) {
            Ok(selector) => Ok(LoadBalancer { backends, strategy, selector }),
            Err(e) => Err(e),
        }
    }

    /// Builds a load balancer over a static set of backend addresses.
    ///
    /// Every address must be a canonical `a.b.c.d:port` endpoint; the set
    /// is deduplicated and published before the selector is built.
    pub fn try_from_iter_with_strategy(
        addrs: &Vec<String>,
        strategy: Adaptive,
        smoothing_factor_milli: u32,
    ) -> (r: Result<LoadBalancer, ConfigError>)
        requires
            1 <= smoothing_factor_milli <= 1000,
        ensures
            r is Ok ==> r->Ok_0.wf() && lb_synced(r->Ok_0) && r->Ok_0.strategy == strategy,
            r is Ok ==> addresses_published(r->Ok_0.backends.snapshot@, addrs@),
            r is Err && r->Err_0 == ConfigError::InvalidAddress <==> exists|t: int|
                0 <= t < addrs@.len() && !crate::addr::is_canonical(
                    (#[trigger] addrs@[t]).view(),
                ),
            r is Err ==> r->Err_0 == ConfigError::InvalidAddress || r->Err_0
                == ConfigError::TooManyWeightEntries,
            (forall|t: int|
                0 <= t < addrs@.len() ==> crate::addr::is_canonical((#[trigger] addrs@[t]).view()))
                && addrs@.len() <= 0xFFFF ==> r is Ok,
    {
        let mut parsed: Vec<Backend> = Vec::new();
        let mut i: usize = 0;
        while i < addrs.len()
            invariant
                i <= addrs@.len(),
                parsed@.len() == i,
                crate::backend::all_wf(parsed@),
                forall|t: int|
                    0 <= t < i ==> vstd::utf8::encode_utf8((#[trigger] addrs@[t])@)
                        == crate::addr::endpoint_bytes(parsed@[t].addr),
                forall|t: int| 0 <= t < i ==> (#[trigger] parsed@[t]).weight == 1,
                forall|t: int|
                    0 <= t < i ==> crate::addr::is_canonical((#[trigger] addrs@[t]).view()),
            decreases addrs@.len() - i,
        {
            let addr_text = addrs[i].as_str();
            match Backend::new(addr_text) {
                Ok(b) => {
                    proof {
                        assert(crate::addr::is_canonical(addrs@[i as int]@)) by {
                            assert(addr_text.spec_bytes() == crate::addr::endpoint_bytes(b.addr));
                        }
                    }
                    parsed.push(b);
                },
                Err(e) => {
                    proof {
                        assert(!crate::addr::is_canonical(addrs@[i as int]@));
                    }
                    return Err(e);
                },
            }
            i = i + 1;
        }
        let ghost parsed0 = parsed@;
        let mut backends = Backends::new(parsed, smoothing_factor_milli);
        backends.update();
        proof {
            // Everything the update published comes from the parsed
            // addresses, and every address's key survives deduplication.
            assert forall|k: int| 0 <= k < backends.snapshot@.len() implies addr_matches(
                #[trigger] backends.snapshot@[k],
                addrs@,
            ) && backends.snapshot@[k].weight == 1 by {
                assert(parsed0.contains(backends.snapshot@[k]));
                let u = choose|u: int| 0 <= u < parsed0.len() && parsed0[u] == backends.snapshot@[k];
                assert(vstd::utf8::encode_utf8(addrs@[u]@) == crate::addr::endpoint_bytes(
                    backends.snapshot@[k].addr,
                ));
            }
            assert forall|t: int| 0 <= t < addrs@.len() implies crate::registry::key_covered(
                backends.snapshot@,
                crate::hashing::fnv1a64_spec(vstd::utf8::encode_utf8((#[trigger] addrs@[t])@)),
            ) by {
                assert(crate::registry::key_covered(backends.snapshot@, parsed0[t].hash_key));
                assert(parsed0[t].wf());
            }
            // Unit weights keep the expansion within the cap whenever the
            // address list itself fits.
            if addrs@.len() <= 0xFFFF {
                crate::strategy::weighted::lemma_expansion_identity(backends.snapshot@);
                crate::strategy::weighted::lemma_expansion_in_range(backends.snapshot@);
            }
        }
        Self::from_backends_with_strategy(backends, strategy)
    }

    /// The current strategy descriptor.
    pub fn current_strategy(&self) -> (r: Adaptive)
        ensures
            r == self.strategy,
    {
        self.strategy
    }

    /// The registry.
    pub fn backends(&self) -> (r: &Backends)
        ensures
            r == &self.backends,
    {
        &self.backends
    }

    /// The registry, for telemetry and health updates.
    pub fn backends_mut(&mut self) -> (r: &mut Backends)
        ensures
            *r == old(self).backends,
            final(self).backends == *final(r),
            final(self).strategy == old(self).strategy,
            final(self).selector == old(self).selector,
    {
        &mut self.backends
    }

    /// The rebuild period of the current strategy.
    pub fn rebuild_frequency(&self) -> (r: Option<u64>)
        ensures
            r == self.strategy.rebuild_frequency_spec(),
    {
        self.strategy.rebuild_frequency()
    }

    /// Swaps the strategy descriptor if it differs from the current one;
    /// returns whether a change occurred. The selector is never rebuilt
    /// here: a swap to the same strategy is a no-op, and even a real swap
    /// only takes effect at the next `rebuild_selector`.
    pub fn update_strategy(&mut self, new_strategy: Adaptive) -> (changed: bool)
        ensures
            changed == (new_strategy != old(self).strategy),
            final(self).strategy == new_strategy,
            final(self).selector == old(self).selector,
            final(self).backends == old(self).backends,
    {
        let changed = self.strategy != new_strategy;
        self.strategy = new_strategy;
        changed
    }

    /// Rebuilds the selector from the current strategy and snapshot.
    ///
    /// Returns whether the rebuild succeeded; on failure (a snapshot past
    /// the 2^16 caps) the old selector stays in place, so selection keeps
    /// working.
    pub fn rebuild_selector(&mut self) -> (ok: bool)
        requires
            old(self).wf(),
        ensures
            final(self).wf(),
            final(self).strategy == old(self).strategy,
            final(self).backends == old(self).backends,
            ok ==> lb_synced(*final(self)),
            !ok ==> final(self).selector == old(self).selector,
            ok <==> old(self).backends.snapshot@.len() <= 0xFFFF && ((old(self).strategy
                is FewestConnections || old(self).strategy is FastestServer || old(self).strategy
                is Consistent) || total_weight(old(self).backends.snapshot@)
                <= MAX_WEIGHT_ENTRIES as int),
    {
        let snapshot = self.backends.get_backend();
        match self.strategy.build_with_metrics(&snapshot, &self.backends.metrics) {
            Ok(selector) => {
                self.selector = selector;
                true
            },
            Err(_) => false,
        }
    }

    /// Runs discovery, publishes the new snapshot, and rebuilds the
    /// selector from it. Returns whether the rebuild succeeded.
    pub fn update(&mut self) -> (ok: bool)
        requires
            old(self).wf(),
        ensures
            final(self).wf(),
            final(self).strategy == old(self).strategy,
            ok ==> lb_synced(*final(self)),
            !ok ==> final(self).selector == old(self).selector,
            ok <==> final(self).backends.snapshot@.len() <= 0xFFFF && ((old(self).strategy
                is FewestConnections || old(self).strategy is FastestServer || old(self).strategy
                is Consistent) || total_weight(final(self).backends.snapshot@)
                <= MAX_WEIGHT_ENTRIES as int),
            crate::registry::updated_from(
                final(self).backends,
                old(self).backends,
                old(self).backends.discovery@,
            ),
    {
        self.backends.update();
        self.rebuild_selector()
    }

    /// The first ready backend for the key, under the given budget of
    /// candidate steps.
    ///
    /// A returned backend always comes from the selector and is ready in
    /// the registry; and as long as the selector serves the current
    /// snapshot, at least one candidate step is allowed, and every backend
    /// is ready, selection cannot fail.
    pub fn select(&mut self, key: &[u8], max_iterations: usize) -> (r: Option<Backend>)
        requires
            old(self).wf(),
        ensures
            final(self).wf(),
            final(self).backends == old(self).backends,
            final(self).strategy == old(self).strategy,
            selector_backends(final(self).selector) == selector_backends(old(self).selector),
            r is Some ==> selector_backends(old(self).selector).contains(r->Some_0)
                && ready_spec(old(self).backends, r->Some_0),
            lb_synced(*old(self)) && all_ready(old(self).backends) && selector_backends(
                old(self).selector,
            ).len() > 0 && max_iterations >= 1 ==> r is Some,
            max_iterations >= 1 && first_ready(*old(self), key@) ==> r == first_candidate(
                old(self).selector,
                key@,
            ) && selector_draw(final(self).selector) == selector_draw_after_pick(
                old(self).selector,
            ),
    {
        let ghost owed = lb_synced(*old(self)) && all_ready(old(self).backends)
            && selector_backends(old(self).selector).len() > 0;
        if max_iterations == 0 {
            return None;
        }
        let mut iter = self.selector.iter(key);
        proof {
            lemma_fresh_first_candidate(iter, old(self).selector, self.selector, key@);
        }
        let mut seen: Vec<u64> = Vec::new();
        let mut steps: usize = 0;
        let first = iter.next(&mut self.selector);
        proof {
            assert(first == first_candidate(old(self).selector, key@));
        }
        match first {
            None => {
                proof {
                    if owed {
                        assert(false);
                    }
                }
                return None;
            },
            Some(b) => {
                steps = 1;
                seen.push(b.hash_key);
                if self.backends.ready(&b) {
                    return Some(b);
                }
                proof {
                    if owed {
                        lemma_all_ready(old(self).backends, b);
                        assert(false);
                    }
                    assert(!first_ready(*old(self), key@));
                }
            },
        }
        loop
            invariant
                self.backends == old(self).backends,
                self.strategy == old(self).strategy,
                self.wf(),
                selector_backends(self.selector) == selector_backends(old(self).selector),
                crate::strategy::adaptive::iter_matches(iter, self.selector),
                !(lb_synced(*old(self)) && all_ready(old(self).backends) && selector_backends(
                    old(self).selector,
                ).len() > 0),
                !first_ready(*old(self), key@),
                steps <= max_iterations,
            decreases max_iterations - steps,
        {
            if steps >= max_iterations {
                return None;
            }
            let candidate = iter.next(&mut self.selector);
            match candidate {
                None => {
                    return None;
                },
                Some(b) => {
                    steps = steps + 1;
                    if !contains_key(&seen, b.hash_key) {
                        seen.push(b.hash_key);
                        if self.backends.ready(&b) {
                            return Some(b);
                        }
                    }
                },
            }
        }
    }

    /// Like `select`, but the caller decides acceptance: the `accept`
    /// function sees each candidate backend together with its readiness
    /// and may ignore health or skip backends for reasons of its own.
    ///
    /// A returned backend always comes from the selector and was approved
    /// by the `accept` function.
    pub fn select_with<F: Fn(&Backend, bool) -> bool>(
        &mut self,
        key: &[u8],
        max_iterations: usize,
        accept: F,
    ) -> (r: Option<Backend>)
        requires
            old(self).wf(),
            forall|b: &Backend, h: bool| #[trigger] accept.requires((b, h)),
        ensures
            final(self).wf(),
            final(self).backends == old(self).backends,
            final(self).strategy == old(self).strategy,
            selector_backends(final(self).selector) == selector_backends(old(self).selector),
            r is Some ==> selector_backends(old(self).selector).contains(r->Some_0) && exists|
                h: bool,
            | #[trigger] accept.ensures((&r->Some_0, h), true),
            selector_backends(old(self).selector).len() > 0 && max_iterations >= 1 && (forall|
                b: &Backend,
                h: bool,
                ret: bool,
            |
                #[trigger] accept.ensures((b, h), ret) ==> ret) ==> r is Some,
            ({
                let fc = first_candidate(old(self).selector, key@);
                max_iterations >= 1 && fc is Some && (forall|ret: bool|
                    #[trigger] accept.ensures(
                        (&fc->Some_0, ready_spec(old(self).backends, fc->Some_0)),
                        ret,
                    ) ==> ret) ==> r == fc
            }),
    {
        let ghost all_accepting = forall|b: &Backend, h: bool, ret: bool|
            #[trigger] accept.ensures((b, h), ret) ==> ret;
        let ghost fc = first_candidate(old(self).selector, key@);
        let ghost fc_accepting = fc is Some && (forall|ret: bool|
            #[trigger] accept.ensures((&fc->Some_0, ready_spec(old(self).backends, fc->Some_0)), ret)
                ==> ret);
        if max_iterations == 0 {
            return None;
        }
        let mut iter = self.selector.iter(key);
        proof {
            lemma_fresh_first_candidate(iter, old(self).selector, self.selector, key@);
        }
        let mut seen: Vec<u64> = Vec::new();
        let mut steps: usize = 0;
        let first = iter.next(&mut self.selector);
        proof {
            assert(first == fc);
        }
        match first {
            None => {
                proof {
                    if selector_backends(old(self).selector).len() > 0 {
                        assert(false);
                    }
                }
                return None;
            },
            Some(b) => {
                steps = 1;
                seen.push(b.hash_key);
                let healthy = self.backends.ready(&b);
                let approved = accept(&b, healthy);
                if approved {
                    return Some(b);
                }
                proof {
                    // An accept function that can only answer true cannot
                    // have answered false here; the same goes for one
                    // bound to approve the first candidate.
                    if all_accepting {
                        assert(accept.ensures((&b, healthy), approved));
                        assert(false);
                    }
                    if fc_accepting {
                        assert(accept.ensures((&b, healthy), approved));
                        assert(false);
                    }
                }
            },
        }
        loop
            invariant
                self.backends == old(self).backends,
                self.strategy == old(self).strategy,
                self.wf(),
                selector_backends(self.selector) == selector_backends(old(self).selector),
                crate::strategy::adaptive::iter_matches(iter, self.selector),
                forall|b: &Backend, h: bool| #[trigger] accept.requires((b, h)),
                !(selector_backends(old(self).selector).len() > 0 && (forall|
                    b: &Backend,
                    h: bool,
                    ret: bool,
                |
                    #[trigger] accept.ensures((b, h), ret) ==> ret)),
                !(first_candidate(old(self).selector, key@) is Some && (forall|ret: bool|
                    #[trigger] accept.ensures(
                        (
                            &first_candidate(old(self).selector, key@)->Some_0,
                            ready_spec(
                                old(self).backends,
                                first_candidate(old(self).selector, key@)->Some_0,
                            ),
                        ),
                        ret,
                    ) ==> ret)),
                steps <= max_iterations,
            decreases max_iterations - steps,
        {
            if steps >= max_iterations {
                return None;
            }
            let candidate = iter.next(&mut self.selector);
            match candidate {
                None => {
                    return None;
                },
                Some(b) => {
                    steps = steps + 1;
                    if !contains_key(&seen, b.hash_key) {
                        seen.push(b.hash_key);
                        let healthy = self.backends.ready(&b);
                        if accept(&b, healthy) {
                            return Some(b);
                        }
                    }
                },
            }
        }
    }
}

} // verus!

//! The adaptive load balancer: a load balancer paired with the decision
//! engine that re-chooses its strategy, and the per-request telemetry path
//! that feeds the engine's metrics.

use vstd::prelude::*;

use crate::backend::Backend;
use crate::decision_engine::{decision, DecisionEngine};
use crate::errors::ConfigError;
use crate::load_balancer::{
    addresses_published, all_ready, first_ready, lb_synced, LoadBalancer,
};
use crate::metrics::{ewma_next, BackendMetrics, MAX_LATENCY_US};
use crate::options::AdaptiveLbOpt;
use crate::registry::{ready_spec, Backends};
use crate::strategy::adaptive::{
    first_candidate, selector_backends, selector_draw, selector_draw_after_pick, Adaptive,
};
use crate::strategy::weighted::{total_weight, MAX_WEIGHT_ENTRIES};

verus! {

/// The configuration the balancer keeps after construction.
pub struct AdaptiveLbConfig {
    /// EWMA weight of a new latency sample, in thousandths.
    pub latency_smoothing_factor_milli: u32,
    /// Per-request budget of candidate steps.
    pub max_iterations: usize,
}

/// A load balancer that re-chooses its strategy from live metrics.
pub struct AdaptiveLoadBalancer {
    pub lb: LoadBalancer,
    pub decision_engine: DecisionEngine,
    pub config: AdaptiveLbConfig,
}

impl AdaptiveLoadBalancer {
    /// Well-formed: the load balancer underneath is.
    pub open spec fn wf(self) -> bool {
        self.lb.wf()
    }

    /// Binds a registry to the options' starting strategy and decision
    /// thresholds. Fails exactly when the snapshot breaks the 2^16 caps.
    pub fn from_backends(backends: Backends, options: Option<AdaptiveLbOpt>) -> (r: Result<
        AdaptiveLoadBalancer,
        ConfigError,
    >)
        requires
            backends.wf(),
            options is Some ==> options->0.wf(),
        ensures
            r is Ok ==> r->Ok_0.wf(),
            r is Ok ==> lb_synced(r->Ok_0.lb),
            r is Ok ==> r->Ok_0.lb.backends == backends,
            r is Ok ==> r->Ok_0.lb.strategy == match options {
                Some(o) => o.starting_strategy,
                None => Adaptive::RoundRobin,
            },
            r is Ok <==> ({
                let strategy = match options {
                    Some(o) => o.starting_strategy,
                    None => Adaptive::RoundRobin,
                };
                backends.snapshot@.len() <= 0xFFFF && ((strategy is FewestConnections || strategy
                    is FastestServer || strategy is Consistent) || total_weight(
                    backends.snapshot@,
                ) <= MAX_WEIGHT_ENTRIES as int)
            }),
            r is Err ==> r->Err_0 == ConfigError::TooManyWeightEntries,
    {
        let opts = match options {
            Some(o) => o,
            None => Default::default(),
        };
        let decision_engine = DecisionEngine::new(&opts);
        let config = AdaptiveLbConfig {
            latency_smoothing_factor_milli: opts.latency_ewma_smoothing_factor_milli,
            max_iterations: opts.max_iterations,
        };
        match LoadBalancer::from_backends_with_strategy(backends, opts.starting_strategy) {
            Ok(lb) => Ok(AdaptiveLoadBalancer { lb, decision_engine, config }),
            Err(e) => Err(e),
        }
    }

    /// Builds the balancer over a static set of backend addresses with
    /// default options: the published snapshot holds exactly the parsed
    /// endpoints, each of weight one.
    pub fn try_from_iter(addrs: &Vec<String>) -> (r: Result<AdaptiveLoadBalancer, ConfigError>)
        ensures
            r is Ok ==> r->Ok_0.wf() && lb_synced(r->Ok_0.lb) && r->Ok_0.lb.strategy
                == Adaptive::RoundRobin,
            r is Ok ==> addresses_published(r->Ok_0.lb.backends.snapshot@, addrs@),
            r is Err && r->Err_0 == ConfigError::InvalidAddress <==> exists|t: int|
                0 <= t < addrs@.len() && !crate::addr::is_canonical(
                    (#[trigger] addrs@[t]).view(),
                ),
            r is Err ==> r->Err_0 == ConfigError::InvalidAddress || r->Err_0
                == ConfigError::TooManyWeightEntries,
            (forall|t: int|
                0 <= t < addrs@.len() ==> crate::addr::is_canonical((#[trigger] addrs@[t]).view()))
                && addrs@.len() <= 0xFFFF ==> r is Ok,
    {
        let opts: AdaptiveLbOpt = Default::default();
        let decision_engine = DecisionEngine::new(&opts);
        let config = AdaptiveLbConfig {
            latency_smoothing_factor_milli: opts.latency_ewma_smoothing_factor_milli,
            max_iterations: opts.max_iterations,
        };
        match LoadBalancer::try_from_iter_with_strategy(
            addrs,
            opts.starting_strategy,
            opts.latency_ewma_smoothing_factor_milli,
        ) {
            Ok(lb) => Ok(AdaptiveLoadBalancer { lb, decision_engine, config }),
            Err(e) => Err(e),
        }
    }

    /// A copy of the published backend snapshot.
    pub fn backends(&self) -> (r: Vec<Backend>)
        ensures
            r@ == self.lb.backends.snapshot@,
    {
        self.lb.backends.get_backend()
    }

    /// The first ready backend for the key, under the configured budget.
    ///
    /// A returned backend comes from the selector and is ready; a ready
    /// first candidate is always the one returned; and as long as the
    /// selector serves the current snapshot, every backend is ready, the
    /// snapshot is non-empty, and the budget admits a step, selection
    /// cannot fail.
    pub fn select(&mut self, key: &[u8]) -> (r: Option<Backend>)
        requires
            old(self).wf(),
        ensures
            final(self).wf(),
            final(self).lb.backends == old(self).lb.backends,
            final(self).lb.strategy == old(self).lb.strategy,
            final(self).config == old(self).config,
            selector_backends(final(self).lb.selector) == selector_backends(
                old(self).lb.selector,
            ),
            r is Some ==> selector_backends(old(self).lb.selector).contains(r->Some_0)
                && ready_spec(old(self).lb.backends, r->Some_0),
            lb_synced(old(self).lb) && all_ready(old(self).lb.backends) && selector_backends(
                old(self).lb.selector,
            ).len() > 0 && old(self).config.max_iterations >= 1 ==> r is Some,
            old(self).config.max_iterations >= 1 && first_ready(old(self).lb, key@) ==> r
                == first_candidate(old(self).lb.selector, key@) && selector_draw(
                final(self).lb.selector,
            ) == selector_draw_after_pick(old(self).lb.selector),
    {
        let budget = self.config.max_iterations;
        self.lb.select(key, budget)
    }

    /// Swaps the strategy descriptor; returns whether a change occurred.
    /// Swapping to the current strategy is a no-op and does not rebuild
    /// the selector.
    pub fn update_strategy(&mut self, new_strategy: Adaptive) -> (changed: bool)
        requires
            old(self).wf(),
        ensures
            final(self).wf(),
            changed == (new_strategy != old(self).lb.strategy),
            final(self).lb.strategy == new_strategy,
            final(self).lb.selector == old(self).lb.selector,
            final(self).lb.backends == old(self).lb.backends,
    {
        self.lb.update_strategy(new_strategy)
    }

    /// Rebuilds the selector for the current strategy from the current
    /// snapshot and metrics. Succeeds exactly when the snapshot respects
    /// the 2^16 caps; on failure the old selector stays in place.
    pub fn rebuild_selector(&mut self) -> (ok: bool)
        requires
            old(self).wf(),
        ensures
            final(self).wf(),
            final(self).lb.strategy == old(self).lb.strategy,
            final(self).lb.backends == old(self).lb.backends,
            ok ==> lb_synced(final(self).lb),
            !ok ==> final(self).lb.selector == old(self).lb.selector,
            ok <==> old(self).lb.backends.snapshot@.len() <= 0xFFFF && ((old(self).lb.strategy
                is FewestConnections || old(self).lb.strategy is FastestServer || old(self).lb.strategy is Consistent) || total_weight(old(self).lb.backends.snapshot@)
                <= MAX_WEIGHT_ENTRIES as int),
    {
        self.lb.rebuild_selector()
    }

    /// Asks the decision engine what the strategy should be, given the
    /// current per-backend metrics. Reads only; the caller applies the
    /// choice.
    pub fn evaluate_strategy(&self) -> (r: Adaptive)
        requires
            self.wf(),
        ensures
            r == decision(
                self.decision_engine,
                connection_counts_of(self.lb.backends),
                latency_averages_of(self.lb.backends),
            ),
    {
        let connections = self.lb.backends.connection_counts();
        let latencies = self.lb.backends.latency_averages();
        let current = self.lb.current_strategy();
        proof {
            assert(connections@ =~= connection_counts_of(self.lb.backends));
            assert(latencies@ =~= latency_averages_of(self.lb.backends));
        }
        self.decision_engine.evaluate_strategy(&current, &connections, &latencies)
    }

    /// Telemetry: a connection to this backend was established. Its open
    /// count rises by one (saturating); every other entry stays.
    pub fn on_connect(&mut self, backend: &Backend)
        requires
            old(self).wf(),
        ensures
            final(self).wf(),
            final(self).lb.strategy == old(self).lb.strategy,
            final(self).lb.selector == old(self).lb.selector,
            final(self).lb.backends.snapshot@ == old(self).lb.backends.snapshot@,
            final(self).lb.backends.ready@ == old(self).lb.backends.ready@,
            final(self).lb.backends.metrics.entries@.len() == old(self).lb.backends.metrics.entries@.len(),
            forall|i: int|
                0 <= i < old(self).lb.backends.metrics.entries@.len() && (#[trigger] old(self).lb.backends.metrics.entries@[i]).0 != backend.hash_key ==> final(self).lb.backends.metrics.entries@[i] == old(self).lb.backends.metrics.entries@[i],
            forall|i: int|
                0 <= i < old(self).lb.backends.metrics.entries@.len() && (#[trigger] old(self).lb.backends.metrics.entries@[i]).0 == backend.hash_key ==> final(self).lb.backends.metrics.entries@[i] == (
                backend.hash_key,
                ({
                    let m = old(self).lb.backends.metrics.entries@[i].1;
                    BackendMetrics {
                        connection_count: if m.connection_count < u64::MAX {
                            (m.connection_count + 1) as u64
                        } else {
                            m.connection_count
                        },
                        ..m
                    }
                }),
            ),
    {
        self.lb.backends_mut().on_connect(backend.hash_key);
    }

    /// Telemetry: a stream to this backend ended. Its open count drops by
    /// one, never below zero; every other entry stays.
    pub fn on_disconnect(&mut self, backend: &Backend)
        requires
            old(self).wf(),
        ensures
            final(self).wf(),
            final(self).lb.strategy == old(self).lb.strategy,
            final(self).lb.selector == old(self).lb.selector,
            final(self).lb.backends.snapshot@ == old(self).lb.backends.snapshot@,
            final(self).lb.backends.ready@ == old(self).lb.backends.ready@,
            final(self).lb.backends.metrics.entries@.len() == old(self).lb.backends.metrics.entries@.len(),
            forall|i: int|
                0 <= i < old(self).lb.backends.metrics.entries@.len() && (#[trigger] old(self).lb.backends.metrics.entries@[i]).0 != backend.hash_key ==> final(self).lb.backends.metrics.entries@[i] == old(self).lb.backends.metrics.entries@[i],
            forall|i: int|
                0 <= i < old(self).lb.backends.metrics.entries@.len() && (#[trigger] old(self).lb.backends.metrics.entries@[i]).0 == backend.hash_key ==> final(self).lb.backends.metrics.entries@[i] == (
                backend.hash_key,
                ({
                    let m = old(self).lb.backends.metrics.entries@[i].1;
                    BackendMetrics {
                        connection_count: if m.connection_count > 0 {
                            (m.connection_count - 1) as u64
                        } else {
                            0
                        },
                        ..m
                    }
                }),
            ),
    {
        self.lb.backends_mut().on_disconnect(backend.hash_key);
    }

    /// Telemetry: this backend answered in `latency_us` microseconds. Its
    /// latency average moves by the EWMA rule; every other entry stays.
    pub fn record_latency(&mut self, backend: &Backend, latency_us: u64)
        requires
            old(self).wf(),
            latency_us <= MAX_LATENCY_US,
        ensures
            final(self).wf(),
            final(self).lb.strategy == old(self).lb.strategy,
            final(self).lb.selector == old(self).lb.selector,
            final(self).lb.backends.snapshot@ == old(self).lb.backends.snapshot@,
            final(self).lb.backends.ready@ == old(self).lb.backends.ready@,
            final(self).lb.backends.metrics.entries@.len() == old(self).lb.backends.metrics.entries@.len(),
            forall|i: int|
                0 <= i < old(self).lb.backends.metrics.entries@.len() && (#[trigger] old(self).lb.backends.metrics.entries@[i]).0 != backend.hash_key ==> final(self).lb.backends.metrics.entries@[i] == old(self).lb.backends.metrics.entries@[i],
            forall|i: int|
                0 <= i < old(self).lb.backends.metrics.entries@.len() && (#[trigger] old(self).lb.backends.metrics.entries@[i]).0 == backend.hash_key ==> final(self).lb.backends.metrics.entries@[i] == (
                backend.hash_key,
                ({
                    let m = old(self).lb.backends.metrics.entries@[i].1;
                    BackendMetrics {
                        avg_latency: ewma_next(
                            m.avg_latency as int,
                            latency_us as int,
                            m.alpha as int,
                        ) as u64,
                        ..m
                    }
                }),
            ),
    {
        self.lb.backends_mut().record_latency(backend.hash_key, latency_us);
    }

    /// Health: a probe decided whether this backend is ready. Exactly its
    /// flag moves; the snapshot and metrics stay.
    pub fn set_ready(&mut self, backend: &Backend, is_ready: bool)
        requires
            old(self).wf(),
        ensures
            final(self).wf(),
            final(self).lb.strategy == old(self).lb.strategy,
            final(self).lb.selector == old(self).lb.selector,
            final(self).lb.backends.snapshot@ == old(self).lb.backends.snapshot@,
            final(self).lb.backends.metrics == old(self).lb.backends.metrics,
            final(self).lb.backends.ready@.len() == old(self).lb.backends.ready@.len(),
            forall|i: int|
                0 <= i < old(self).lb.backends.snapshot@.len() ==> final(self).lb.backends.ready@[i] == (if (#[trigger] old(self).lb.backends.snapshot@[i]).hash_key == backend.hash_key {
                    is_ready
                } else {
                    old(self).lb.backends.ready@[i]
                }),
    {
        self.lb.backends_mut().set_ready(backend.hash_key, is_ready);
    }
}

/// The connection counts stored in the registry, snapshot order.
pub open spec fn connection_counts_of(b: Backends) -> Seq<u64> {
    Seq::new(b.metrics.entries@.len(), |i: int| b.metrics.entries@[i].1.connection_count)
}

/// The latency averages stored in the registry, snapshot order.
pub open spec fn latency_averages_of(b: Backends) -> Seq<u64> {
    Seq::new(b.metrics.entries@.len(), |i: int| b.metrics.entries@[i].1.avg_latency)
}

} // verus!

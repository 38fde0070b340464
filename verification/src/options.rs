//! Configuration of the adaptive load balancer.
//!
//! Ratios and the EWMA smoothing factor are carried in thousandths, and
//! every period is in milliseconds.

use vstd::prelude::*;

use crate::strategy::adaptive::Adaptive;

verus! {

/// Default per-request budget of candidate steps.
pub const DEFAULT_MAX_ALGORITHM_ITERATIONS: usize = 256;

/// Default EWMA smoothing factor, in thousandths.
pub const DEFAULT_SMOOTHING_FACTOR_MILLI: u32 = 500;

/// Default connection-divergence threshold, in thousandths.
pub const DEFAULT_CONNECTIONS_DIV_RATIO_MILLI: u64 = 1200;

/// Default latency-divergence threshold, in thousandths.
pub const DEFAULT_LATENCY_DIV_RATIO_MILLI: u64 = 2000;

/// Default decision-engine period, in milliseconds.
pub const DEFAULT_EVALUATE_STRATEGY_FREQUENCY_MS: u64 = 5000;

/// Default health-probe period, in milliseconds.
pub const DEFAULT_HEALTH_CHECK_FREQUENCY_MS: u64 = 1000;

/// Default connection floor for the connection-divergence trigger.
pub const DEFAULT_MIN_NR_OF_CONNECTIONS: u64 = 1000;

/// The tunable knobs of the adaptive load balancer.
pub struct AdaptiveLbOpt {
    /// EWMA weight of a new latency sample, in thousandths, in `1..=1000`.
    pub latency_ewma_smoothing_factor_milli: u32,
    /// Threshold on the connection-count ratio, in thousandths.
    pub connections_divergence_ratio_milli: u64,
    /// Threshold on the latency ratio, in thousandths.
    pub latency_divergence_ratio_milli: u64,
    /// The initial selector, and what the engine falls back to.
    pub starting_strategy: Adaptive,
    /// Decision-engine period, in milliseconds.
    pub evaluate_strategy_frequency: u64,
    /// Per-request budget of candidate steps.
    pub max_iterations: usize,
    /// Health-probe period in milliseconds; `None` disables probing.
    pub health_check_interval: Option<u64>,
    /// Connection floor under which connection divergence is ignored.
    pub min_nr_of_connections: u64,
}

impl AdaptiveLbOpt {
    /// A valid smoothing factor.
    pub open spec fn wf(self) -> bool {
        1 <= self.latency_ewma_smoothing_factor_milli <= 1000
    }
}

impl Default for AdaptiveLbOpt {
    /// The documented defaults.
    fn default() -> (r: AdaptiveLbOpt)
        ensures
            r.wf(),
            r.latency_ewma_smoothing_factor_milli == DEFAULT_SMOOTHING_FACTOR_MILLI,
            r.connections_divergence_ratio_milli == DEFAULT_CONNECTIONS_DIV_RATIO_MILLI,
            r.latency_divergence_ratio_milli == DEFAULT_LATENCY_DIV_RATIO_MILLI,
            r.starting_strategy == Adaptive::RoundRobin,
            r.evaluate_strategy_frequency == DEFAULT_EVALUATE_STRATEGY_FREQUENCY_MS,
            r.max_iterations == DEFAULT_MAX_ALGORITHM_ITERATIONS,
            r.health_check_interval == Some(DEFAULT_HEALTH_CHECK_FREQUENCY_MS),
            r.min_nr_of_connections == DEFAULT_MIN_NR_OF_CONNECTIONS,
    {
        AdaptiveLbOpt {
            latency_ewma_smoothing_factor_milli: DEFAULT_SMOOTHING_FACTOR_MILLI,
            connections_divergence_ratio_milli: DEFAULT_CONNECTIONS_DIV_RATIO_MILLI,
            latency_divergence_ratio_milli: DEFAULT_LATENCY_DIV_RATIO_MILLI,
            starting_strategy: Adaptive::RoundRobin,
            evaluate_strategy_frequency: DEFAULT_EVALUATE_STRATEGY_FREQUENCY_MS,
            max_iterations: DEFAULT_MAX_ALGORITHM_ITERATIONS,
            health_check_interval: Some(DEFAULT_HEALTH_CHECK_FREQUENCY_MS),
            min_nr_of_connections: DEFAULT_MIN_NR_OF_CONNECTIONS,
        }
    }
}

} // verus!

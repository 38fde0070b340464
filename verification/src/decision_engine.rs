//! The decision engine: reads the per-backend metrics and chooses the next
//! strategy.
//!
//! Divergence is judged by the ratio of the largest to the smallest value,
//! with thresholds given in thousandths. Latency wins over connections,
//! and when neither diverges the engine falls back to the configured
//! default; re-evaluating both triggers in that priority order on every
//! tick is what keeps the dynamic strategies sticky exactly while their
//! own trigger still fires.

use vstd::prelude::*;

use crate::options::AdaptiveLbOpt;
use crate::strategy::adaptive::Adaptive;

verus! {

/// The largest value of a non-empty sequence.
pub open spec fn seq_max(s: Seq<u64>) -> u64
    decreases s.len(),
{
    if s.len() <= 1 {
        s[0]
    } else {
        let m = seq_max(s.drop_last());
        if s.last() > m {
            s.last()
        } else {
            m
        }
    }
}

/// The smallest value of a non-empty sequence.
pub open spec fn seq_min(s: Seq<u64>) -> u64
    decreases s.len(),
{
    if s.len() <= 1 {
        s[0]
    } else {
        let m = seq_min(s.drop_last());
        if s.last() < m {
            s.last()
        } else {
            m
        }
    }
}

/// Whether max/min exceeds the threshold ratio (in thousandths). A zero
/// minimum means some backend has no signal yet; the ratio then counts as
/// one.
pub open spec fn ratio_exceeds(mx: u64, mn: u64, ratio_milli: u64) -> bool {
    if mn > 0 {
        mx * 1000 > mn * ratio_milli
    } else {
        1000 > ratio_milli
    }
}

/// Whether the latency averages have diverged past the threshold.
pub open spec fn latency_diverged(latencies: Seq<u64>, ratio_milli: u64) -> bool {
    latencies.len() >= 2 && ratio_exceeds(seq_max(latencies), seq_min(latencies), ratio_milli)
}

/// Whether the connection counts have diverged past the threshold, with
/// enough load for the divergence to matter.
pub open spec fn connections_diverged(
    connections: Seq<u64>,
    ratio_milli: u64,
    min_nr_of_connections: u64,
) -> bool {
    &&& connections.len() >= 2
    &&& seq_max(connections) >= min_nr_of_connections
    &&& ratio_exceeds(seq_max(connections), seq_min(connections), ratio_milli)
}

/// The strategy the engine picks for the given metrics: fastest server on
/// latency divergence, else fewest connections on connection divergence
/// under load, else the configured default.
pub open spec fn decision(
    engine: DecisionEngine,
    connections: Seq<u64>,
    latencies: Seq<u64>,
) -> Adaptive {
    if latency_diverged(latencies, engine.latency_divergence_ratio_milli) {
        Adaptive::FastestServer
    } else if connections_diverged(
        connections,
        engine.connections_divergence_ratio_milli,
        engine.min_nr_of_connections,
    ) {
        Adaptive::FewestConnections
    } else {
        engine.default_strategy
    }
}

/// The thresholds the engine judges divergence by.
pub struct DecisionEngine {
    /// How often the engine is asked, in milliseconds.
    pub evaluate_strategy_frequency: u64,
    /// Connection-count ratio threshold, in thousandths.
    pub connections_divergence_ratio_milli: u64,
    /// Latency ratio threshold, in thousandths.
    pub latency_divergence_ratio_milli: u64,
    /// Connection floor under which reshuffling gains nothing.
    pub min_nr_of_connections: u64,
    /// What to fall back to when nothing diverges.
    pub default_strategy: Adaptive,
}

impl DecisionEngine {
    /// An engine with the thresholds of the given options.
    pub fn new(options: &AdaptiveLbOpt) -> (r: DecisionEngine)
        ensures
            r.evaluate_strategy_frequency == options.evaluate_strategy_frequency,
            r.connections_divergence_ratio_milli == options.connections_divergence_ratio_milli,
            r.latency_divergence_ratio_milli == options.latency_divergence_ratio_milli,
            r.min_nr_of_connections == options.min_nr_of_connections,
            r.default_strategy == options.starting_strategy,
    {
        DecisionEngine {
            evaluate_strategy_frequency: options.evaluate_strategy_frequency,
            connections_divergence_ratio_milli: options.connections_divergence_ratio_milli,
            latency_divergence_ratio_milli: options.latency_divergence_ratio_milli,
            min_nr_of_connections: options.min_nr_of_connections,
            default_strategy: options.starting_strategy,
        }
    }

    /// Picks the next strategy for the given per-backend metrics. The
    /// engine reads, never mutates: applying the choice is the caller's
    /// business.
    pub fn evaluate_strategy(
        &self,
        _current_strategy: &Adaptive,
        connections: &Vec<u64>,
        latencies: &Vec<u64>,
    ) -> (r: Adaptive)
        ensures
            r == decision(*self, connections@, latencies@),
    {
        if self.should_use_fastest_server(latencies) {
            return Adaptive::FastestServer;
        }
        if self.should_use_fewest_connections(connections) {
            return Adaptive::FewestConnections;
        }
        self.default_strategy
    }

    /// Whether latency divergence calls for the fastest-server strategy.
    pub fn should_use_fastest_server(&self, latencies: &Vec<u64>) -> (r: bool)
        ensures
            r == latency_diverged(latencies@, self.latency_divergence_ratio_milli),
    {
        if latencies.len() < 2 {
            return false;
        }
        let (mx, mn) = max_min(latencies);
        ratio_check(mx, mn, self.latency_divergence_ratio_milli)
    }

    /// Whether connection divergence calls for the fewest-connections
    /// strategy.
    pub fn should_use_fewest_connections(&self, connections: &Vec<u64>) -> (r: bool)
        ensures
            r == connections_diverged(
                connections@,
                self.connections_divergence_ratio_milli,
                self.min_nr_of_connections,
            ),
    {
        if connections.len() < 2 {
            return false;
        }
        let (mx, mn) = max_min(connections);
        if mx < self.min_nr_of_connections {
            return false;
        }
        ratio_check(mx, mn, self.connections_divergence_ratio_milli)
    }
}

/// Compares `mx / mn` against the threshold without division or overflow.
fn ratio_check(mx: u64, mn: u64, ratio_milli: u64) -> (r: bool)
    ensures
        r == ratio_exceeds(mx, mn, ratio_milli),
{
    if mn > 0 {
        proof {
            assert((mn as u128) * (ratio_milli as u128) < 0x1_0000_0000_0000_0000_0000_0000_0000_0000)
                by (nonlinear_arith)
                requires
                    mn <= 0xFFFF_FFFF_FFFF_FFFFu64,
                    ratio_milli <= 0xFFFF_FFFF_FFFF_FFFFu64,
            ;
        }
        (mx as u128) * 1000 > (mn as u128) * (ratio_milli as u128)
    } else {
        1000 > ratio_milli
    }
}

/// The largest and smallest entries of a non-empty array.
fn max_min(s: &Vec<u64>) -> (r: (u64, u64))
    requires
        s@.len() >= 1,
    ensures
        r.0 == seq_max(s@),
        r.1 == seq_min(s@),
{
    let mut mx: u64 = s[0];
    let mut mn: u64 = s[0];
    let mut i: usize = 1;
    while i < s.len()
        invariant
            1 <= i <= s@.len(),
            mx == seq_max(s@.take(i as int)),
            mn == seq_min(s@.take(i as int)),
        decreases s@.len() - i,
    {
        proof {
            assert(s@.take(1)[0] == s@[0]);
        }
        let v = s[i];
        if v > mx {
            mx = v;
        }
        if v < mn {
            mn = v;
        }
        proof {
            assert(s@.take(i + 1).drop_last() =~= s@.take(i as int));
            assert(s@.take(i + 1).last() == s@[i as int]);
        }
        i = i + 1;
    }
    proof {
        assert(s@.take(s@.len() as int) =~= s@);
    }
    (mx, mn)
}

} // verus!

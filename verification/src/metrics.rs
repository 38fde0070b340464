//! Per-backend telemetry: an active-connection counter and a latency EWMA.
//!
//! Latency is kept in whole microseconds. The exponential moving average
//! `avg <- alpha * x + (1 - alpha) * avg` is computed in fixed point with the
//! smoothing factor `alpha` given in thousandths, rounding to nearest. An
//! average of zero means "no sample yet": the first sample is taken as-is,
//! and a backend without samples sorts first so that cold backends get
//! probed.

use vstd::arithmetic::div_mod::{lemma_div_is_ordered, lemma_fundamental_div_mod_converse};
use vstd::prelude::*;

use crate::backend::Backend;

verus! {

/// Largest accepted latency sample, in microseconds (about 71 minutes).
pub const MAX_LATENCY_US: u64 = 0xFFFF_FFFF;

/// The next value of the latency average after sample `x`, with smoothing
/// factor `alpha` in thousandths. A zero average means "no sample yet", so
/// the first sample is taken unsmoothed.
pub open spec fn ewma_next(avg: int, x: int, alpha: int) -> int {
    if avg == 0 {
        x
    } else {
        (alpha * x + (1000 - alpha) * avg + 500) / 1000
    }
}

/// Counters for one backend: open upstream connections and the latency EWMA.
#[derive(Clone, Copy, Debug)]
pub struct BackendMetrics {
    /// Latency average in microseconds; zero while no sample has arrived.
    pub avg_latency: u64,
    /// EWMA smoothing factor in thousandths, in `1..=1000`.
    pub alpha: u32,
    /// Currently open upstream connections.
    pub connection_count: u64,
}

impl BackendMetrics {
    /// Well-formed: smoothing factor in range and a bounded average.
    pub open spec fn wf(self) -> bool {
        &&& 1 <= self.alpha <= 1000
        &&& self.avg_latency <= MAX_LATENCY_US
    }

    /// Fresh metrics with no samples and no connections.
    pub fn new(smoothing_factor_milli: u32) -> (r: BackendMetrics)
        requires
            1 <= smoothing_factor_milli <= 1000,
        ensures
            r.wf(),
            r.avg_latency == 0,
            r.connection_count == 0,
            r.alpha == smoothing_factor_milli,
    {
        BackendMetrics { avg_latency: 0, alpha: smoothing_factor_milli, connection_count: 0 }
    }

    /// Folds one latency sample (microseconds) into the average.
    pub fn record_latency(&mut self, latency_us: u64)
        requires
            old(self).wf(),
            latency_us <= MAX_LATENCY_US,
        ensures
            final(self).wf(),
            final(self).avg_latency == ewma_next(
                old(self).avg_latency as int,
                latency_us as int,
                old(self).alpha as int,
            ),
            final(self).alpha == old(self).alpha,
            final(self).connection_count == old(self).connection_count,
    {
        if self.avg_latency == 0 {
            self.avg_latency = latency_us;
        } else {
            let a: u64 = self.alpha as u64;
            proof {
                assert(a * latency_us <= 1000 * MAX_LATENCY_US) by (nonlinear_arith)
                    requires
                        a <= 1000,
                        latency_us <= MAX_LATENCY_US,
                ;
                assert((1000 - a) * self.avg_latency <= 1000 * MAX_LATENCY_US) by (nonlinear_arith)
                    requires
                        a >= 1,
                        a <= 1000,
                        self.avg_latency <= MAX_LATENCY_US,
                ;
            }
            let num: u64 = a * latency_us + (1000 - a) * self.avg_latency + 500;
            proof {
                lemma_ewma_next_bracket(
                    self.avg_latency as int,
                    latency_us as int,
                    self.alpha as int,
                );
            }
            self.avg_latency = num / 1000;
        }
    }

    /// Notes one more open upstream connection; the count saturates.
    pub fn increment_connection_count(&mut self)
        ensures
            final(self).connection_count == if old(self).connection_count < u64::MAX {
                old(self).connection_count + 1
            } else {
                old(self).connection_count as int
            },
            final(self).avg_latency == old(self).avg_latency,
            final(self).alpha == old(self).alpha,
    {
        if self.connection_count < u64::MAX {
            self.connection_count = self.connection_count + 1;
        }
    }

    /// Notes one closed upstream connection; never drops below zero.
    pub fn decrement_connection_count(&mut self)
        ensures
            final(self).connection_count == if old(self).connection_count > 0 {
                old(self).connection_count - 1
            } else {
                0
            },
            final(self).avg_latency == old(self).avg_latency,
            final(self).alpha == old(self).alpha,
    {
        if self.connection_count > 0 {
            self.connection_count = self.connection_count - 1;
        }
    }

    /// The number of currently open upstream connections.
    pub fn active_connections(&self) -> (r: Option<u64>)
        ensures
            r == Some(self.connection_count),
    {
        Some(self.connection_count)
    }

    /// The latency average in microseconds; zero means "no sample yet".
    pub fn average_latency(&self) -> (r: Option<u64>)
        ensures
            r == Some(self.avg_latency),
    {
        Some(self.avg_latency)
    }
}

/// After a sample, the average lies between the old average and the sample.
pub proof fn lemma_ewma_next_bracket(avg: int, x: int, alpha: int)
    requires
        0 < avg <= MAX_LATENCY_US,
        0 <= x <= MAX_LATENCY_US,
        1 <= alpha <= 1000,
    ensures
        avg <= x ==> avg <= ewma_next(avg, x, alpha) <= x,
        x <= avg ==> x <= ewma_next(avg, x, alpha) <= avg,
{
    let num = alpha * x + (1000 - alpha) * avg + 500;
    let lo = if avg <= x {
        avg
    } else {
        x
    };
    let hi = if avg <= x {
        x
    } else {
        avg
    };
    assert(1000 * lo + 500 <= num && num <= 1000 * hi + 500) by (nonlinear_arith)
        requires
            1 <= alpha <= 1000,
            lo <= x <= hi,
            lo <= avg <= hi,
            num == alpha * x + (1000 - alpha) * avg + 500,
    ;
    lemma_fundamental_div_mod_converse(1000 * lo + 500, 1000, lo, 500);
    lemma_fundamental_div_mod_converse(1000 * hi + 500, 1000, hi, 500);
    lemma_div_is_ordered(1000 * lo + 500, num, 1000);
    lemma_div_is_ordered(num, 1000 * hi + 500, 1000);
}

/// With constant samples `c`, the average stays put once it has reached `c`.
pub proof fn lemma_ewma_fixpoint(c: int, alpha: int)
    requires
        0 < c <= MAX_LATENCY_US,
        1 <= alpha <= 1000,
    ensures
        ewma_next(c, c, alpha) == c,
{
    lemma_ewma_next_bracket(c, c, alpha);
}

/// While all samples are zero, the average stays at zero: a backend that
/// never reported latency keeps reading "no sample".
pub proof fn lemma_ewma_zero_stays(alpha: int)
    requires
        1 <= alpha <= 1000,
    ensures
        ewma_next(0, 0, alpha) == 0,
{
}

/// With constant samples `c`, the average moves strictly toward `c` while
/// `alpha * distance` exceeds the rounding grain, and never overshoots: the
/// sequence of averages converges to within `500 / alpha` of `c`.
pub proof fn lemma_ewma_converges(avg: int, c: int, alpha: int)
    requires
        0 < avg <= MAX_LATENCY_US,
        0 < c <= MAX_LATENCY_US,
        1 <= alpha <= 1000,
    ensures
        avg < c && alpha * (c - avg) > 500 ==> avg < ewma_next(avg, c, alpha) <= c,
        avg > c && alpha * (avg - c) > 500 ==> c <= ewma_next(avg, c, alpha) < avg,
{
    lemma_ewma_next_bracket(avg, c, alpha);
    let num = alpha * c + (1000 - alpha) * avg + 500;
    if avg < c && alpha * (c - avg) > 500 {
        assert(num >= 1000 * (avg + 1)) by (nonlinear_arith)
            requires
                num == alpha * c + (1000 - alpha) * avg + 500,
                alpha * (c - avg) > 500,
                1 <= alpha <= 1000,
                avg < c,
        ;
        lemma_fundamental_div_mod_converse(1000 * (avg + 1), 1000, avg + 1, 0);
        lemma_div_is_ordered(1000 * (avg + 1), num, 1000);
    }
    if avg > c && alpha * (avg - c) > 500 {
        assert(num <= 1000 * avg - 1) by (nonlinear_arith)
            requires
                num == alpha * c + (1000 - alpha) * avg + 500,
                alpha * (avg - c) > 500,
                1 <= alpha <= 1000,
                avg > c,
        ;
        lemma_fundamental_div_mod_converse(1000 * avg - 1, 1000, avg - 1, 999);
        lemma_div_is_ordered(num, 1000 * avg - 1, 1000);
    }
}

/// One connection event: `true` for a connect, `false` for a disconnect.
/// The counter value after a sequence of events, starting from zero, with
/// the saturating semantics of the counter operations.
pub open spec fn counter_after(events: Seq<bool>) -> int
    decreases events.len(),
{
    if events.len() == 0 {
        0
    } else {
        let prev = counter_after(events.drop_last());
        if events.last() {
            if prev < u64::MAX {
                prev + 1
            } else {
                prev
            }
        } else {
            if prev > 0 {
                prev - 1
            } else {
                0
            }
        }
    }
}

/// How many events in the sequence match `v`.
pub open spec fn count_events(events: Seq<bool>, v: bool) -> int
    decreases events.len(),
{
    if events.len() == 0 {
        0
    } else {
        count_events(events.drop_last(), v) + (if events.last() == v {
            1int
        } else {
            0int
        })
    }
}

/// Counter soundness: the connection counter never goes negative, and as
/// long as no prefix of the event history disconnects more streams than it
/// connected (and the count stays within the machine word), the counter
/// equals the number of currently open upstream streams:
/// `#connects - #disconnects`.
pub proof fn lemma_counter_soundness(events: Seq<bool>)
    requires
        forall|k: int|
            0 <= k <= events.len() ==> count_events(#[trigger] events.take(k), false)
                <= count_events(events.take(k), true) <= u64::MAX,
    ensures
        counter_after(events) == count_events(events, true) - count_events(events, false) >= 0,
    decreases events.len(),
{
    if events.len() > 0 {
        let prefix = events.drop_last();
        assert forall|k: int|
            0 <= k <= prefix.len() implies count_events(#[trigger] prefix.take(k), false)
            <= count_events(prefix.take(k), true) <= u64::MAX by {
            assert(prefix.take(k) =~= events.take(k));
        }
        lemma_counter_soundness(prefix);
        lemma_count_events_nonneg(prefix, true);
        lemma_count_events_nonneg(prefix, false);
        assert(events.take(events.len() as int) =~= events);
        assert(events.take(events.len() - 1) =~= prefix);
        assert(count_events(events.take(events.len() - 1), false) <= count_events(
            events.take(events.len() - 1),
            true,
        ));
        assert(count_events(events.take(events.len() as int), false) <= count_events(
            events.take(events.len() as int),
            true,
        ) <= u64::MAX);
    }
}

/// Event counts are never negative.
pub proof fn lemma_count_events_nonneg(events: Seq<bool>, v: bool)
    ensures
        0 <= count_events(events, v) <= events.len(),
    decreases events.len(),
{
    if events.len() > 0 {
        lemma_count_events_nonneg(events.drop_last(), v);
    }
}

/// Metrics for a set of backends, keyed by the backends' hash keys.
///
/// The table survives selector rebuilds: `carried_over` keeps the entry of
/// every endpoint that is present in both the old and the new backend set,
/// so counters and averages outlive any one selector.
pub struct MetricsTable {
    /// EWMA smoothing factor, in thousandths, used for new entries.
    pub smoothing_factor_milli: u32,
    /// One entry per backend: the backend's hash key and its metrics.
    pub entries: Vec<(u64, BackendMetrics)>,
}

/// The first index holding `key`, or -1.
pub open spec fn find_key(entries: Seq<(u64, BackendMetrics)>, key: u64) -> int
    decreases entries.len(),
{
    if entries.len() == 0 {
        -1
    } else if entries[0].0 == key {
        0
    } else {
        let r = find_key(entries.drop_first(), key);
        if r == -1 {
            -1
        } else {
            r + 1
        }
    }
}

/// `find_key` finds exactly the first occurrence.
pub proof fn lemma_find_key(entries: Seq<(u64, BackendMetrics)>, key: u64)
    ensures
        find_key(entries, key) == -1 ==> forall|i: int|
            0 <= i < entries.len() ==> (#[trigger] entries[i]).0 != key,
        find_key(entries, key) != -1 ==> {
            let j = find_key(entries, key);
            &&& 0 <= j < entries.len()
            &&& entries[j].0 == key
            &&& forall|i: int| 0 <= i < j ==> (#[trigger] entries[i]).0 != key
        },
    decreases entries.len(),
{
    if entries.len() > 0 && entries[0].0 != key {
        let dl = entries.drop_first();
        lemma_find_key(dl, key);
        assert(forall|i: int| 1 <= i < entries.len() ==> entries[i] == #[trigger] dl[i - 1]);
        let r = find_key(dl, key);
        if r == -1 {
            assert(find_key(entries, key) == -1);
            assert forall|i: int| 0 <= i < entries.len() implies (#[trigger] entries[i]).0
                != key by {
                if i >= 1 {
                    assert(entries[i] == dl[i - 1]);
                }
            }
        } else {
            assert(find_key(entries, key) == r + 1);
            assert(entries[r + 1] == dl[r]);
            assert forall|i: int| 0 <= i < r + 1 implies (#[trigger] entries[i]).0 != key by {
                if i >= 1 {
                    assert(entries[i] == dl[i - 1]);
                }
            }
        }
    }
}

impl MetricsTable {
    /// Well-formed: keys unique, every entry's metrics well-formed with the
    /// table's smoothing factor.
    pub open spec fn wf(self) -> bool {
        &&& 1 <= self.smoothing_factor_milli <= 1000
        &&& forall|i: int, j: int|
            0 <= i < j < self.entries@.len() ==> (#[trigger] self.entries@[i]).0
                != (#[trigger] self.entries@[j]).0
        &&& forall|i: int|
            0 <= i < self.entries@.len() ==> (#[trigger] self.entries@[i]).1.wf()
                && self.entries@[i].1.alpha == self.smoothing_factor_milli
    }

    /// The metrics stored under `key`, if any.
    pub open spec fn spec_get(self, key: u64) -> Option<BackendMetrics> {
        let j = find_key(self.entries@, key);
        if j == -1 {
            None
        } else {
            Some(self.entries@[j].1)
        }
    }

    /// An empty table.
    pub fn new(smoothing_factor_milli: u32) -> (r: MetricsTable)
        requires
            1 <= smoothing_factor_milli <= 1000,
        ensures
            r.wf(),
            r.entries@.len() == 0,
            r.smoothing_factor_milli == smoothing_factor_milli,
    {
        MetricsTable { smoothing_factor_milli, entries: Vec::new() }
    }

    /// Finds the index of `key` in the table.
    fn find(&self, key: u64) -> (r: Option<usize>)
        ensures
            r is None ==> find_key(self.entries@, key) == -1 && forall|i: int|
                0 <= i < self.entries@.len() ==> (#[trigger] self.entries@[i]).0 != key,
            r is Some ==> {
                let i = r->Some_0;
                &&& find_key(self.entries@, key) == i
                &&& i < self.entries@.len()
                &&& self.entries@[i as int].0 == key
                &&& forall|j: int| 0 <= j < i ==> (#[trigger] self.entries@[j]).0 != key
            },
    {
        proof {
            lemma_find_key(self.entries@, key);
        }
        let mut i: usize = 0;
        while i < self.entries.len()
            invariant
                i <= self.entries@.len(),
                forall|j: int| 0 <= j < i ==> (#[trigger] self.entries@[j]).0 != key,
            decreases self.entries@.len() - i,
        {
            if self.entries[i].0 == key {
                proof {
                    lemma_find_key_pinpoint(self.entries@, key, i as int);
                }
                return Some(i);
            }
            i = i + 1;
        }
        proof {
            lemma_find_key(self.entries@, key);
            if find_key(self.entries@, key) != -1 {
                assert(self.entries@[find_key(self.entries@, key)].0 == key);
            }
        }
        None
    }

    /// Notes a connection opened to the backend with this key.
    pub fn on_connect(&mut self, key: u64)
        requires
            old(self).wf(),
        ensures
            final(self).wf(),
            final(self).smoothing_factor_milli == old(self).smoothing_factor_milli,
            final(self).entries@.len() == old(self).entries@.len(),
            forall|i: int|
                0 <= i < old(self).entries@.len() && (#[trigger] old(self).entries@[i]).0 != key
                    ==> final(self).entries@[i] == old(self).entries@[i],
            forall|i: int|
                0 <= i < old(self).entries@.len() && (#[trigger] old(self).entries@[i]).0 == key
                    ==> final(self).entries@[i].0 == key && final(self).entries@[i].1
                    == ({
                    let m = old(self).entries@[i].1;
                    BackendMetrics {
                        connection_count: if m.connection_count < u64::MAX {
                            (m.connection_count + 1) as u64
                        } else {
                            m.connection_count
                        },
                        ..m
                    }
                }),
    {
        if let Some(i) = self.find(key) {
            proof {
                lemma_find_key(self.entries@, key);
            }
            let entry = &mut self.entries[i];
            entry.1.increment_connection_count();
        }
    }

    /// Notes a connection closed to the backend with this key.
    pub fn on_disconnect(&mut self, key: u64)
        requires
            old(self).wf(),
        ensures
            final(self).wf(),
            final(self).smoothing_factor_milli == old(self).smoothing_factor_milli,
            final(self).entries@.len() == old(self).entries@.len(),
            forall|i: int|
                0 <= i < old(self).entries@.len() && (#[trigger] old(self).entries@[i]).0 != key
                    ==> final(self).entries@[i] == old(self).entries@[i],
            forall|i: int|
                0 <= i < old(self).entries@.len() && (#[trigger] old(self).entries@[i]).0 == key
                    ==> final(self).entries@[i].0 == key && final(self).entries@[i].1
                    == ({
                    let m = old(self).entries@[i].1;
                    BackendMetrics {
                        connection_count: if m.connection_count > 0 {
                            (m.connection_count - 1) as u64
                        } else {
                            0
                        },
                        ..m
                    }
                }),
    {
        if let Some(i) = self.find(key) {
            proof {
                lemma_find_key(self.entries@, key);
            }
            let entry = &mut self.entries[i];
            entry.1.decrement_connection_count();
        }
    }

    /// Folds a latency sample (microseconds) into the backend with this key.
    pub fn record_latency(&mut self, key: u64, latency_us: u64)
        requires
            old(self).wf(),
            latency_us <= MAX_LATENCY_US,
        ensures
            final(self).wf(),
            final(self).smoothing_factor_milli == old(self).smoothing_factor_milli,
            final(self).entries@.len() == old(self).entries@.len(),
            forall|i: int|
                0 <= i < old(self).entries@.len() && (#[trigger] old(self).entries@[i]).0 != key
                    ==> final(self).entries@[i] == old(self).entries@[i],
            forall|i: int|
                0 <= i < old(self).entries@.len() && (#[trigger] old(self).entries@[i]).0 == key
                    ==> final(self).entries@[i].0 == key && final(self).entries@[i].1
                    == ({
                    let m = old(self).entries@[i].1;
                    BackendMetrics {
                        avg_latency: ewma_next(
                            m.avg_latency as int,
                            latency_us as int,
                            m.alpha as int,
                        ) as u64,
                        ..m
                    }
                }),
    {
        if let Some(i) = self.find(key) {
            proof {
                lemma_find_key(self.entries@, key);
            }
            let entry = &mut self.entries[i];
            entry.1.record_latency(latency_us);
        }
    }

    /// The connection count stored for `key`, or zero if absent.
    pub fn connection_count_of(&self, key: u64) -> (r: u64)
        ensures
            r == match self.spec_get(key) {
                Some(m) => m.connection_count,
                None => 0,
            },
    {
        match self.find(key) {
            Some(i) => self.entries[i].1.connection_count,
            None => 0,
        }
    }

    /// The latency average stored for `key`, or zero if absent.
    pub fn avg_latency_of(&self, key: u64) -> (r: u64)
        ensures
            r == match self.spec_get(key) {
                Some(m) => m.avg_latency,
                None => 0,
            },
    {
        match self.find(key) {
            Some(i) => self.entries[i].1.avg_latency,
            None => 0,
        }
    }

    /// The table for a new backend set: entries of surviving endpoints are
    /// kept, newly discovered endpoints start fresh.
    pub fn carried_over(&self, backends: &Vec<Backend>) -> (r: MetricsTable)
        requires
            self.wf(),
            forall|i: int, j: int|
                0 <= i < j < backends@.len() ==> (#[trigger] backends@[i]).hash_key
                    != (#[trigger] backends@[j]).hash_key,
        ensures
            r.wf(),
            r.smoothing_factor_milli == self.smoothing_factor_milli,
            r.entries@.len() == backends@.len(),
            forall|i: int|
                0 <= i < backends@.len() ==> (#[trigger] r.entries@[i]).0
                    == backends@[i].hash_key,
            forall|i: int|
                0 <= i < backends@.len() ==> (#[trigger] r.entries@[i]).1 == match self.spec_get(
                    backends@[i].hash_key,
                ) {
                    Some(m) => m,
                    None => BackendMetrics {
                        avg_latency: 0,
                        alpha: self.smoothing_factor_milli,
                        connection_count: 0,
                    },
                },
    {
        let mut entries: Vec<(u64, BackendMetrics)> = Vec::new();
        let mut i: usize = 0;
        while i < backends.len()
            invariant
                i <= backends@.len(),
                entries@.len() == i,
                self.wf(),
                forall|k: int, j: int|
                    0 <= k < j < backends@.len() ==> (#[trigger] backends@[k]).hash_key
                        != (#[trigger] backends@[j]).hash_key,
                forall|k: int|
                    0 <= k < i ==> (#[trigger] entries@[k]).0 == backends@[k].hash_key,
                forall|k: int|
                    0 <= k < i ==> (#[trigger] entries@[k]).1.wf() && entries@[k].1.alpha
                        == self.smoothing_factor_milli,
                forall|k: int|
                    0 <= k < i ==> (#[trigger] entries@[k]).1 == match self.spec_get(
                        backends@[k].hash_key,
                    ) {
                        Some(m) => m,
                        None => BackendMetrics {
                            avg_latency: 0,
                            alpha: self.smoothing_factor_milli,
                            connection_count: 0,
                        },
                    },
            decreases backends@.len() - i,
        {
            let key = backends[i].hash_key;
            let m = match self.find(key) {
                Some(j) => self.entries[j].1,
                None => BackendMetrics::new(self.smoothing_factor_milli),
            };
            proof {
                lemma_find_key(self.entries@, key);
            }
            entries.push((key, m));
            i = i + 1;
        }
        let r = MetricsTable { smoothing_factor_milli: self.smoothing_factor_milli, entries };
        proof {
            assert forall|a: int, b: int|
                0 <= a < b < r.entries@.len() implies (#[trigger] r.entries@[a]).0
                != (#[trigger] r.entries@[b]).0 by {
                assert(r.entries@[a].0 == backends@[a].hash_key);
                assert(r.entries@[b].0 == backends@[b].hash_key);
            }
        }
        r
    }
}

/// If no index before `i` holds `key` and index `i` does, then `i` is what
/// `find_key` returns.
pub proof fn lemma_find_key_pinpoint(entries: Seq<(u64, BackendMetrics)>, key: u64, i: int)
    requires
        0 <= i < entries.len(),
        entries[i].0 == key,
        forall|j: int| 0 <= j < i ==> (#[trigger] entries[j]).0 != key,
    ensures
        find_key(entries, key) == i,
    decreases entries.len(),
{
    if i > 0 {
        lemma_find_key_pinpoint(entries.drop_first(), key, i - 1);
    }
}

} // verus!

//! The backend registry: the live set of backends, their readiness, and
//! their metrics, published as one snapshot.
//!
//! The snapshot is ordered by endpoint and duplicate-free, readiness
//! defaults to true for newly discovered backends and is preserved for the
//! ones that survive an update, and the metrics entry of every surviving
//! backend is carried over, so counters and averages outlive rebuilds.

use vstd::prelude::*;

use crate::backend::{all_wf, strictly_ordered, Backend};
use crate::metrics::{find_key, BackendMetrics, MetricsTable, MAX_LATENCY_US};

verus! {

/// Pairwise distinct hash keys.
pub open spec fn distinct_keys(backends: Seq<Backend>) -> bool {
    forall|i: int, j: int|
        0 <= i < j < backends.len() ==> (#[trigger] backends[i]).hash_key
            != (#[trigger] backends[j]).hash_key
}

/// Some entry of the sequence carries this hash key.
pub open spec fn key_covered(backends: Seq<Backend>, key: u64) -> bool {
    exists|k: int| 0 <= k < backends.len() && (#[trigger] backends[k]).hash_key == key
}

/// The live backends: a static discovery set, the published snapshot, its
/// readiness, and the per-backend metrics.
pub struct Backends {
    /// What discovery returns: the configured backend set.
    pub discovery: Vec<Backend>,
    /// The published snapshot: ordered by endpoint, duplicate-free.
    pub snapshot: Vec<Backend>,
    /// Readiness, aligned with the snapshot.
    pub ready: Vec<bool>,
    /// Metrics, aligned with the snapshot by hash key.
    pub metrics: MetricsTable,
}

impl Backends {
    /// Well-formed: the snapshot is ordered and duplicate-free, and the
    /// readiness and metrics arrays mirror it entry by entry.
    pub open spec fn wf(self) -> bool {
        &&& all_wf(self.snapshot@)
        &&& strictly_ordered(self.snapshot@)
        &&& distinct_keys(self.snapshot@)
        &&& self.ready@.len() == self.snapshot@.len()
        &&& self.metrics.wf()
        &&& self.metrics.entries@.len() == self.snapshot@.len()
        &&& forall|i: int|
            0 <= i < self.snapshot@.len() ==> (#[trigger] self.metrics.entries@[i]).0
                == self.snapshot@[i].hash_key
        &&& all_wf(self.discovery@)
    }

    /// A registry for a discovery set; the snapshot starts empty and is
    /// filled by `update`.
    pub fn new(discovery: Vec<Backend>, smoothing_factor_milli: u32) -> (r: Backends)
        requires
            all_wf(discovery@),
            1 <= smoothing_factor_milli <= 1000,
        ensures
            r.wf(),
            r.discovery@ == discovery@,
            r.snapshot@.len() == 0,
    {
        Backends {
            discovery,
            snapshot: Vec::new(),
            ready: Vec::new(),
            metrics: MetricsTable::new(smoothing_factor_milli),
        }
    }

    /// The backend with this hash key, as an index into the snapshot.
    fn find(&self, key: u64) -> (r: Option<usize>)
        requires
            self.wf(),
        ensures
            r is Some ==> r->Some_0 < self.snapshot@.len()
                && self.snapshot@[r->Some_0 as int].hash_key == key,
            r is None ==> forall|i: int|
                0 <= i < self.snapshot@.len() ==> (#[trigger] self.snapshot@[i]).hash_key != key,
    {
        let mut i: usize = 0;
        while i < self.snapshot.len()
            invariant
                i <= self.snapshot@.len(),
                forall|j: int| 0 <= j < i ==> (#[trigger] self.snapshot@[j]).hash_key != key,
            decreases self.snapshot@.len() - i,
        {
            if self.snapshot[i].hash_key == key {
                return Some(i);
            }
            i = i + 1;
        }
        None
    }

    /// Whether this backend is ready: present in the snapshot with its
    /// readiness flag set.
    pub fn ready(&self, backend: &Backend) -> (r: bool)
        requires
            self.wf(),
        ensures
            r == ready_spec(*self, *backend),
    {
        proof {
            lemma_snapshot_index(self.snapshot@, backend.hash_key);
        }
        match self.find(backend.hash_key) {
            Some(i) => {
                proof {
                    let j = snapshot_index_of(self.snapshot@, backend.hash_key);
                    assert(j != -1);
                    assert(j == i) by {
                        if j != i {
                            assert(self.snapshot@[j].hash_key == self.snapshot@[i as int].hash_key);
                        }
                    }
                }
                self.ready[i]
            },
            None => {
                proof {
                    if snapshot_index_of(self.snapshot@, backend.hash_key) != -1 {
                        let j = snapshot_index_of(self.snapshot@, backend.hash_key);
                        assert(self.snapshot@[j].hash_key == backend.hash_key);
                    }
                }
                false
            },
        }
    }

    /// A copy of the published snapshot.
    pub fn get_backend(&self) -> (r: Vec<Backend>)
        ensures
            r@ == self.snapshot@,
    {
        crate::strategy::fewest_connections::copy_backends(&self.snapshot)
    }

    /// How many backends the snapshot holds.
    pub fn len(&self) -> (r: usize)
        ensures
            r == self.snapshot@.len(),
    {
        self.snapshot.len()
    }

    /// Marks the backend with this hash key ready or unready, as a health
    /// probe decided. Nothing else changes.
    pub fn set_ready(&mut self, key: u64, is_ready: bool)
        requires
            old(self).wf(),
        ensures
            final(self).wf(),
            final(self).snapshot@ == old(self).snapshot@,
            final(self).discovery@ == old(self).discovery@,
            final(self).metrics == old(self).metrics,
            final(self).ready@.len() == old(self).ready@.len(),
            forall|i: int|
                0 <= i < old(self).snapshot@.len() ==> final(self).ready@[i] == (if (
                #[trigger] old(self).snapshot@[i]).hash_key == key {
                    is_ready
                } else {
                    old(self).ready@[i]
                }),
    {
        let mut i: usize = 0;
        while i < self.snapshot.len()
            invariant
                old(self).wf(),
                i <= self.snapshot@.len(),
                self.snapshot@ == old(self).snapshot@,
                self.discovery@ == old(self).discovery@,
                self.metrics == old(self).metrics,
                self.ready@.len() == old(self).ready@.len(),
                self.ready@.len() == self.snapshot@.len(),
                forall|j: int|
                    i <= j < old(self).snapshot@.len() ==> self.ready@[j] == old(self).ready@[j],
                forall|j: int|
                    0 <= j < i ==> self.ready@[j] == (if (#[trigger] old(
                        self,
                    ).snapshot@[j]).hash_key == key {
                        is_ready
                    } else {
                        old(self).ready@[j]
                    }),
            decreases self.snapshot@.len() - i,
        {
            if self.snapshot[i].hash_key == key {
                self.ready[i] = is_ready;
            }
            i = i + 1;
        }
    }

    /// Runs discovery (the static set) and publishes a new snapshot:
    /// ordered, duplicate-free, readiness preserved for surviving backends
    /// and true for new ones, metrics carried over by endpoint identity.
    /// Returns whether the snapshot changed.
    pub fn update(&mut self) -> (changed: bool)
        requires
            old(self).wf(),
        ensures
            final(self).wf(),
            final(self).discovery@ == old(self).discovery@,
            updated_from(*final(self), *old(self), old(self).discovery@),
            changed == (final(self).snapshot@ != old(self).snapshot@),
    {
        let discovered = crate::strategy::fewest_connections::copy_backends(&self.discovery);
        self.update_with(&discovered)
    }

    /// Publishes a new snapshot from an externally discovered backend set.
    pub fn update_with(&mut self, discovered: &Vec<Backend>) -> (changed: bool)
        requires
            old(self).wf(),
            all_wf(discovered@),
        ensures
            final(self).wf(),
            final(self).discovery@ == old(self).discovery@,
            updated_from(*final(self), *old(self), discovered@),
            changed == (final(self).snapshot@ != old(self).snapshot@),
    {
        let new_snapshot = sort_dedup(discovered);
        let mut ready: Vec<bool> = Vec::new();
        let mut i: usize = 0;
        while i < new_snapshot.len()
            invariant
                old(self).wf(),
                *self == *old(self),
                i <= new_snapshot@.len(),
                ready@.len() == i,
                forall|j: int|
                    0 <= j < i ==> ready@[j] == carried_ready(
                        *old(self),
                        (#[trigger] new_snapshot@[j]).hash_key,
                    ),
            decreases new_snapshot@.len() - i,
        {
            let key = new_snapshot[i].hash_key;
            proof {
                lemma_snapshot_index(self.snapshot@, key);
            }
            let flag = match self.find(key) {
                Some(j) => {
                    proof {
                        let sio = snapshot_index_of(self.snapshot@, key);
                        assert(sio != -1);
                        if sio != j {
                            assert(self.snapshot@[sio].hash_key == self.snapshot@[j as int].hash_key);
                        }
                    }
                    self.ready[j]
                },
                None => {
                    proof {
                        if snapshot_index_of(self.snapshot@, key) != -1 {
                            let sio = snapshot_index_of(self.snapshot@, key);
                            assert(self.snapshot@[sio].hash_key == key);
                        }
                    }
                    true
                },
            };
            ready.push(flag);
            i = i + 1;
        }
        let metrics = self.metrics.carried_over(&new_snapshot);
        let changed = !same_backends(&self.snapshot, &new_snapshot);
        self.snapshot = new_snapshot;
        self.ready = ready;
        self.metrics = metrics;
        changed
    }


    /// Like `update_with`, for a discovery that also reports readiness:
    /// the published snapshot and metrics are as `update_with` leaves
    /// them, and readiness starts from the carried flags with discovery's
    /// per-key entries applied on top (for one key, a later entry wins).
    pub fn update_with_readiness(
        &mut self,
        discovered: &Vec<Backend>,
        readiness: &Vec<(u64, bool)>,
    ) -> (changed: bool)
        requires
            old(self).wf(),
            all_wf(discovered@),
        ensures
            final(self).wf(),
            final(self).discovery@ == old(self).discovery@,
            snapshot_updated(*final(self), *old(self), discovered@),
            final(self).ready@ == overridden_ready(
                Seq::new(
                    final(self).snapshot@.len(),
                    |i: int| carried_ready(*old(self), final(self).snapshot@[i].hash_key),
                ),
                final(self).snapshot@,
                readiness@,
            ),
            changed == (final(self).snapshot@ != old(self).snapshot@),
    {
        let changed = self.update_with(discovered);
        let ghost carried = self.ready@;
        let ghost snap = self.snapshot@;
        proof {
            assert(carried =~= Seq::new(
                snap.len(),
                |i: int| carried_ready(*old(self), snap[i].hash_key),
            ));
        }
        let mut t: usize = 0;
        while t < readiness.len()
            invariant
                self.wf(),
                self.discovery@ == old(self).discovery@,
                self.snapshot@ == snap,
                snapshot_updated(*self, *old(self), discovered@),
                t <= readiness@.len(),
                self.ready@ == overridden_ready(carried, snap, readiness@.take(t as int)),
            decreases readiness@.len() - t,
        {
            let (key, flag) = readiness[t];
            self.set_ready(key, flag);
            proof {
                assert(readiness@.take(t + 1).drop_last() =~= readiness@.take(t as int));
                assert(readiness@.take(t + 1).last() == readiness@[t as int]);
                assert(self.ready@ =~= overridden_ready(carried, snap, readiness@.take(t + 1)));
            }
            t = t + 1;
        }
        proof {
            assert(readiness@.take(readiness@.len() as int) =~= readiness@);
        }
        changed
    }

    /// The connection counts, aligned with the snapshot.
    pub fn connection_counts(&self) -> (r: Vec<u64>)
        requires
            self.wf(),
        ensures
            r@.len() == self.snapshot@.len(),
            forall|i: int|
                0 <= i < r@.len() ==> r@[i] == (#[trigger] self.metrics.entries@[i]).1.connection_count,
    {
        let mut r: Vec<u64> = Vec::new();
        let mut i: usize = 0;
        while i < self.metrics.entries.len()
            invariant
                self.wf(),
                i <= self.metrics.entries@.len(),
                r@.len() == i,
                forall|j: int|
                    0 <= j < i ==> r@[j] == (#[trigger] self.metrics.entries@[j]).1.connection_count,
            decreases self.metrics.entries@.len() - i,
        {
            r.push(self.metrics.entries[i].1.connection_count);
            i = i + 1;
        }
        r
    }

    /// The latency averages, aligned with the snapshot.
    pub fn latency_averages(&self) -> (r: Vec<u64>)
        requires
            self.wf(),
        ensures
            r@.len() == self.snapshot@.len(),
            forall|i: int|
                0 <= i < r@.len() ==> r@[i] == (#[trigger] self.metrics.entries@[i]).1.avg_latency,
    {
        let mut r: Vec<u64> = Vec::new();
        let mut i: usize = 0;
        while i < self.metrics.entries.len()
            invariant
                self.wf(),
                i <= self.metrics.entries@.len(),
                r@.len() == i,
                forall|j: int|
                    0 <= j < i ==> r@[j] == (#[trigger] self.metrics.entries@[j]).1.avg_latency,
            decreases self.metrics.entries@.len() - i,
        {
            r.push(self.metrics.entries[i].1.avg_latency);
            i = i + 1;
        }
        r
    }

    /// Notes a connection opened to this backend.
    pub fn on_connect(&mut self, key: u64)
        requires
            old(self).wf(),
        ensures
            final(self).wf(),
            final(self).snapshot@ == old(self).snapshot@,
            final(self).ready@ == old(self).ready@,
            final(self).discovery@ == old(self).discovery@,
            final(self).metrics.entries@.len() == old(self).metrics.entries@.len(),
            forall|i: int|
                0 <= i < old(self).metrics.entries@.len() && (#[trigger] old(
                    self,
                ).metrics.entries@[i]).0 != key ==> final(self).metrics.entries@[i] == old(
                    self,
                ).metrics.entries@[i],
            forall|i: int|
                0 <= i < old(self).metrics.entries@.len() && (#[trigger] old(
                    self,
                ).metrics.entries@[i]).0 == key ==> final(self).metrics.entries@[i] == (
                key,
                ({
                    let m = old(self).metrics.entries@[i].1;
                    crate::metrics::BackendMetrics {
                        connection_count: if m.connection_count < u64::MAX {
                            (m.connection_count + 1) as u64
                        } else {
                            m.connection_count
                        },
                        ..m
                    }
                }),
            ),
    {
        self.metrics.on_connect(key);
        proof {
            assert forall|i: int| 0 <= i < self.snapshot@.len() implies (
            #[trigger] self.metrics.entries@[i]).0 == self.snapshot@[i].hash_key by {
                assert(old(self).metrics.entries@[i].0 == old(self).snapshot@[i].hash_key);
            }
        }
    }

    /// Notes a connection closed to this backend.
    pub fn on_disconnect(&mut self, key: u64)
        requires
            old(self).wf(),
        ensures
            final(self).wf(),
            final(self).snapshot@ == old(self).snapshot@,
            final(self).ready@ == old(self).ready@,
            final(self).discovery@ == old(self).discovery@,
            final(self).metrics.entries@.len() == old(self).metrics.entries@.len(),
            forall|i: int|
                0 <= i < old(self).metrics.entries@.len() && (#[trigger] old(
                    self,
                ).metrics.entries@[i]).0 != key ==> final(self).metrics.entries@[i] == old(
                    self,
                ).metrics.entries@[i],
            forall|i: int|
                0 <= i < old(self).metrics.entries@.len() && (#[trigger] old(
                    self,
                ).metrics.entries@[i]).0 == key ==> final(self).metrics.entries@[i] == (
                key,
                ({
                    let m = old(self).metrics.entries@[i].1;
                    crate::metrics::BackendMetrics {
                        connection_count: if m.connection_count > 0 {
                            (m.connection_count - 1) as u64
                        } else {
                            0
                        },
                        ..m
                    }
                }),
            ),
    {
        self.metrics.on_disconnect(key);
        proof {
            assert forall|i: int| 0 <= i < self.snapshot@.len() implies (
            #[trigger] self.metrics.entries@[i]).0 == self.snapshot@[i].hash_key by {
                assert(old(self).metrics.entries@[i].0 == old(self).snapshot@[i].hash_key);
            }
        }
    }

    /// Folds a latency sample (microseconds) into this backend's average.
    pub fn record_latency(&mut self, key: u64, latency_us: u64)
        requires
            old(self).wf(),
            latency_us <= MAX_LATENCY_US,
        ensures
            final(self).wf(),
            final(self).snapshot@ == old(self).snapshot@,
            final(self).ready@ == old(self).ready@,
            final(self).discovery@ == old(self).discovery@,
            final(self).metrics.entries@.len() == old(self).metrics.entries@.len(),
            forall|i: int|
                0 <= i < old(self).metrics.entries@.len() && (#[trigger] old(
                    self,
                ).metrics.entries@[i]).0 != key ==> final(self).metrics.entries@[i] == old(
                    self,
                ).metrics.entries@[i],
            forall|i: int|
                0 <= i < old(self).metrics.entries@.len() && (#[trigger] old(
                    self,
                ).metrics.entries@[i]).0 == key ==> final(self).metrics.entries@[i] == (
                key,
                ({
                    let m = old(self).metrics.entries@[i].1;
                    crate::metrics::BackendMetrics {
                        avg_latency: crate::metrics::ewma_next(
                            m.avg_latency as int,
                            latency_us as int,
                            m.alpha as int,
                        ) as u64,
                        ..m
                    }
                }),
            ),
    {
        self.metrics.record_latency(key, latency_us);
        proof {
            assert forall|i: int| 0 <= i < self.snapshot@.len() implies (
            #[trigger] self.metrics.entries@[i]).0 == self.snapshot@[i].hash_key by {
                assert(old(self).metrics.entries@[i].0 == old(self).snapshot@[i].hash_key);
            }
        }
    }

    /// The metrics stored for this backend, if it is known.
    pub fn metrics_of(&self, key: u64) -> (r: Option<BackendMetrics>)
        ensures
            r == self.metrics.spec_get(key),
    {
        proof {
            crate::metrics::lemma_find_key(self.metrics.entries@, key);
        }
        let mut i: usize = 0;
        while i < self.metrics.entries.len()
            invariant
                i <= self.metrics.entries@.len(),
                forall|j: int| 0 <= j < i ==> (#[trigger] self.metrics.entries@[j]).0 != key,
            decreases self.metrics.entries@.len() - i,
        {
            if self.metrics.entries[i].0 == key {
                proof {
                    crate::metrics::lemma_find_key_pinpoint(self.metrics.entries@, key, i as int);
                }
                return Some(self.metrics.entries[i].1);
            }
            i = i + 1;
        }
        proof {
            if find_key(self.metrics.entries@, key) != -1 {
                assert(self.metrics.entries@[find_key(self.metrics.entries@, key)].0 == key);
            }
        }
        None
    }
}

/// The first snapshot index holding this hash key, or -1.
pub open spec fn snapshot_index_of(snapshot: Seq<Backend>, key: u64) -> int
    decreases snapshot.len(),
{
    if snapshot.len() == 0 {
        -1
    } else if snapshot[0].hash_key == key {
        0
    } else {
        let r = snapshot_index_of(snapshot.drop_first(), key);
        if r == -1 {
            -1
        } else {
            r + 1
        }
    }
}

/// `snapshot_index_of` finds exactly the first occurrence.
pub proof fn lemma_snapshot_index(snapshot: Seq<Backend>, key: u64)
    ensures
        snapshot_index_of(snapshot, key) == -1 ==> forall|i: int|
            0 <= i < snapshot.len() ==> (#[trigger] snapshot[i]).hash_key != key,
        snapshot_index_of(snapshot, key) != -1 ==> {
            let j = snapshot_index_of(snapshot, key);
            &&& 0 <= j < snapshot.len()
            &&& snapshot[j].hash_key == key
        },
    decreases snapshot.len(),
{
    if snapshot.len() > 0 && snapshot[0].hash_key != key {
        let dl = snapshot.drop_first();
        lemma_snapshot_index(dl, key);
        assert(forall|i: int| 1 <= i < snapshot.len() ==> snapshot[i] == #[trigger] dl[i - 1]);
        if snapshot_index_of(dl, key) == -1 {
            assert forall|i: int| 0 <= i < snapshot.len() implies (#[trigger] snapshot[i]).hash_key
                != key by {
                if i >= 1 {
                    assert(snapshot[i] == dl[i - 1]);
                }
            }
        }
    }
}

/// Whether this backend counts as ready: present in the snapshot and
/// flagged ready.
pub open spec fn ready_spec(b: Backends, backend: Backend) -> bool {
    let j = snapshot_index_of(b.snapshot@, backend.hash_key);
    j != -1 && b.ready@[j]
}

/// The readiness a backend keeps across an update: its old flag if it was
/// in the old snapshot, true if it is newly discovered.
pub open spec fn carried_ready(old_b: Backends, key: u64) -> bool {
    let j = snapshot_index_of(old_b.snapshot@, key);
    if j == -1 {
        true
    } else {
        old_b.ready@[j]
    }
}

/// What an update publishes, apart from readiness: the new snapshot holds
/// exactly the endpoints of the discovered set (first occurrence of each
/// hash key), and metrics survive by endpoint identity.
pub open spec fn snapshot_updated(new_b: Backends, old_b: Backends, discovered: Seq<Backend>) -> bool {
    &&& new_b.snapshot@.len() <= discovered.len()
    &&& forall|k: int|
        0 <= k < new_b.snapshot@.len() ==> discovered.contains(#[trigger] new_b.snapshot@[k])
    &&& forall|t: int|
        0 <= t < discovered.len() ==> key_covered(
            new_b.snapshot@,
            (#[trigger] discovered[t]).hash_key,
        )
    &&& forall|k: int|
        0 <= k < new_b.snapshot@.len() ==> (#[trigger] new_b.metrics.entries@[k]).1
            == match old_b.metrics.spec_get(new_b.snapshot@[k].hash_key) {
            Some(m) => m,
            None => BackendMetrics {
                avg_latency: 0,
                alpha: old_b.metrics.smoothing_factor_milli,
                connection_count: 0,
            },
        }
}

/// What an update publishes: the snapshot and metrics as above, and
/// readiness carried over for surviving backends, true for new ones.
pub open spec fn updated_from(new_b: Backends, old_b: Backends, discovered: Seq<Backend>) -> bool {
    &&& snapshot_updated(new_b, old_b, discovered)
    &&& forall|k: int|
        0 <= k < new_b.snapshot@.len() ==> new_b.ready@[k] == carried_ready(
            old_b,
            (#[trigger] new_b.snapshot@[k]).hash_key,
        )
}

/// The readiness array after applying discovery's readiness entries in
/// order: each `(key, flag)` sets the flag of every snapshot position
/// carrying that hash key; for one key, a later entry wins.
pub open spec fn overridden_ready(
    ready: Seq<bool>,
    snapshot: Seq<Backend>,
    overrides: Seq<(u64, bool)>,
) -> Seq<bool>
    decreases overrides.len(),
{
    if overrides.len() == 0 {
        ready
    } else {
        let prev = overridden_ready(ready, snapshot, overrides.drop_last());
        let last = overrides.last();
        Seq::new(
            prev.len(),
            |i: int|
                if 0 <= i < snapshot.len() && snapshot[i].hash_key == last.0 {
                    last.1
                } else {
                    prev[i]
                },
        )
    }
}

/// Whether two snapshots hold the same backends in the same order.
fn same_backends(a: &Vec<Backend>, b: &Vec<Backend>) -> (r: bool)
    requires
        all_wf(a@),
        all_wf(b@),
    ensures
        r == (a@ == b@),
{
    if a.len() != b.len() {
        proof {
            assert(a@.len() != b@.len());
        }
        return false;
    }
    let mut i: usize = 0;
    while i < a.len()
        invariant
            i <= a@.len(),
            a@.len() == b@.len(),
            all_wf(a@),
            all_wf(b@),
            forall|j: int| 0 <= j < i ==> a@[j] == b@[j],
        decreases a@.len() - i,
    {
        let x = a[i];
        let y = b[i];
        if x.addr.ip != y.addr.ip || x.addr.port != y.addr.port || x.weight != y.weight {
            proof {
                assert(a@[i as int] != b@[i as int]);
            }
            return false;
        }
        proof {
            assert(a@[i as int].wf() && b@[i as int].wf());
            assert(a@[i as int].hash_key == b@[i as int].hash_key);
            assert(a@[i as int] == b@[i as int]);
        }
        i = i + 1;
    }
    proof {
        assert(a@ =~= b@);
    }
    true
}

/// Orders the discovered backends by endpoint and drops duplicates (by
/// hash key, first occurrence wins).
fn sort_dedup(discovered: &Vec<Backend>) -> (r: Vec<Backend>)
    requires
        all_wf(discovered@),
    ensures
        all_wf(r@),
        strictly_ordered(r@),
        distinct_keys(r@),
        r@.len() <= discovered@.len(),
        forall|k: int| 0 <= k < r@.len() ==> discovered@.contains(#[trigger] r@[k]),
        forall|t: int|
            0 <= t < discovered@.len() ==> key_covered(r@, (#[trigger] discovered@[t]).hash_key),
{
    let mut r: Vec<Backend> = Vec::new();
    let mut i: usize = 0;
    while i < discovered.len()
        invariant
            i <= discovered@.len(),
            r@.len() <= i,
            all_wf(discovered@),
            all_wf(r@),
            strictly_ordered(r@),
            distinct_keys(r@),
            forall|k: int| 0 <= k < r@.len() ==> discovered@.contains(#[trigger] r@[k]),
            forall|t: int|
                0 <= t < i ==> key_covered(r@, (#[trigger] discovered@[t]).hash_key),
        decreases discovered@.len() - i,
    {
        let b = discovered[i];
        let mut dup = false;
        let mut j: usize = 0;
        while j < r.len()
            invariant
                j <= r@.len(),
                dup ==> key_covered(r@, b.hash_key),
                !dup ==> forall|k: int|
                    0 <= k < j ==> (#[trigger] r@[k]).hash_key != b.hash_key,
            decreases r@.len() - j,
        {
            if r[j].hash_key == b.hash_key {
                proof {
                    assert(r@[j as int].hash_key == b.hash_key);
                }
                dup = true;
            }
            j = j + 1;
        }
        if !dup {
            let mut p: usize = 0;
            while p < r.len() && endpoint_before(&r[p], &b)
                invariant
                    p <= r@.len(),
                    forall|k: int|
                        0 <= k < p ==> (#[trigger] r@[k]).addr.order_key() < b.addr.order_key(),
                decreases r@.len() - p,
            {
                p = p + 1;
            }
            let ghost old_r = r@;
            r.insert(p, b);
            proof {
                lemma_dedup_insert(old_r, r@, p as int, b, discovered@, i as int);
            }
        }
        i = i + 1;
    }
    r
}

/// Inserting a new backend at its sorted position keeps the snapshot
/// ordered, duplicate-free, and covering the processed prefix.
proof fn lemma_dedup_insert(
    old_r: Seq<Backend>,
    new_r: Seq<Backend>,
    p: int,
    b: Backend,
    discovered: Seq<Backend>,
    i: int,
)
    requires
        0 <= p <= old_r.len(),
        new_r == old_r.insert(p, b),
        0 <= i < discovered.len(),
        discovered[i] == b,
        all_wf(discovered),
        all_wf(old_r),
        strictly_ordered(old_r),
        distinct_keys(old_r),
        forall|k: int| 0 <= k < old_r.len() ==> discovered.contains(#[trigger] old_r[k]),
        forall|t: int|
            0 <= t < i ==> key_covered(old_r, (#[trigger] discovered[t]).hash_key),
        forall|k: int| 0 <= k < old_r.len() ==> (#[trigger] old_r[k]).hash_key != b.hash_key,
        forall|k: int| 0 <= k < p ==> (#[trigger] old_r[k]).addr.order_key() < b.addr.order_key(),
        p < old_r.len() ==> !(old_r[p].addr.order_key() < b.addr.order_key()),
    ensures
        all_wf(new_r),
        strictly_ordered(new_r),
        distinct_keys(new_r),
        forall|k: int| 0 <= k < new_r.len() ==> discovered.contains(#[trigger] new_r[k]),
        forall|t: int|
            0 <= t < i + 1 ==> key_covered(new_r, (#[trigger] discovered[t]).hash_key),
{
    lemma_dedup_insert_membership(old_r, new_r, p, b, discovered, i);
    lemma_dedup_insert_order(old_r, new_r, p, b);
    assert forall|t: int| 0 <= t < i + 1 implies key_covered(
        new_r,
        (#[trigger] discovered[t]).hash_key,
    ) by {
        if t == i {
            assert(new_r[p].hash_key == discovered[t].hash_key);
        } else {
            assert(key_covered(old_r, discovered[t].hash_key));
            let k0 = choose|k0: int|
                0 <= k0 < old_r.len() && (#[trigger] old_r[k0]).hash_key
                    == discovered[t].hash_key;
            if k0 < p {
                assert(new_r[k0].hash_key == discovered[t].hash_key);
            } else {
                assert(new_r[k0 + 1].hash_key == discovered[t].hash_key);
            }
        }
    }
}

#[verifier::spinoff_prover]
proof fn lemma_dedup_insert_membership(
    old_r: Seq<Backend>,
    new_r: Seq<Backend>,
    p: int,
    b: Backend,
    discovered: Seq<Backend>,
    i: int,
)
    requires
        0 <= p <= old_r.len(),
        new_r == old_r.insert(p, b),
        0 <= i < discovered.len(),
        discovered[i] == b,
        all_wf(discovered),
        all_wf(old_r),
        forall|k: int| 0 <= k < old_r.len() ==> discovered.contains(#[trigger] old_r[k]),
    ensures
        all_wf(new_r),
        forall|k: int| 0 <= k < new_r.len() ==> discovered.contains(#[trigger] new_r[k]),
{
    assert(b.wf()) by {
        assert(discovered[i].wf());
    }
    assert forall|k: int| 0 <= k < new_r.len() implies discovered.contains(#[trigger] new_r[k])
        && new_r[k].wf() by {
        if k < p {
            assert(new_r[k] == old_r[k]);
        } else if k == p {
            assert(new_r[k] == b);
            assert(discovered.contains(b));
        } else {
            assert(new_r[k] == old_r[k - 1]);
        }
    }
}

#[verifier::spinoff_prover]
proof fn lemma_dedup_insert_order(old_r: Seq<Backend>, new_r: Seq<Backend>, p: int, b: Backend)
    requires
        0 <= p <= old_r.len(),
        new_r == old_r.insert(p, b),
        all_wf(old_r),
        b.wf(),
        strictly_ordered(old_r),
        distinct_keys(old_r),
        forall|k: int| 0 <= k < old_r.len() ==> (#[trigger] old_r[k]).hash_key != b.hash_key,
        forall|k: int| 0 <= k < p ==> (#[trigger] old_r[k]).addr.order_key() < b.addr.order_key(),
        p < old_r.len() ==> !(old_r[p].addr.order_key() < b.addr.order_key()),
    ensures
        strictly_ordered(new_r),
        distinct_keys(new_r),
{
    if p < old_r.len() {
        lemma_order_key_distinct(old_r[p], b);
    }
    assert forall|k1: int, k2: int| 0 <= k1 < k2 < new_r.len() implies (
    #[trigger] new_r[k1]).addr.order_key() < (#[trigger] new_r[k2]).addr.order_key() && (
    new_r[k1]).hash_key != (new_r[k2]).hash_key by {
        let a1 = if k1 < p {
            old_r[k1]
        } else if k1 == p {
            b
        } else {
            old_r[k1 - 1]
        };
        let a2 = if k2 < p {
            old_r[k2]
        } else if k2 == p {
            b
        } else {
            old_r[k2 - 1]
        };
        assert(new_r[k1] == a1 && new_r[k2] == a2);
        if k1 == p && k2 > p {
            assert(p < old_r.len());
            assert(b.addr.order_key() < old_r[p].addr.order_key());
            if k2 > p + 1 {
                assert(old_r[p].addr.order_key() < old_r[k2 - 1].addr.order_key());
            }
        }
        if k1 != p && k2 != p {
            let i1 = if k1 < p { k1 } else { k1 - 1 };
            let i2 = if k2 < p { k2 } else { k2 - 1 };
            assert(a1 == old_r[i1] && a2 == old_r[i2] && i1 < i2);
        }
    }
}

/// Two well-formed backends with distinct hash keys have distinct
/// endpoints, so their endpoint order is strict.
proof fn lemma_order_key_distinct(a: Backend, b: Backend)
    requires
        a.wf(),
        b.wf(),
        a.hash_key != b.hash_key,
    ensures
        a.addr.order_key() != b.addr.order_key(),
{
    if a.addr.order_key() == b.addr.order_key() {
        assert(a.addr.ip as int * 0x10000 + a.addr.port == b.addr.ip as int * 0x10000
            + b.addr.port);
        assert(a.addr.ip == b.addr.ip && a.addr.port == b.addr.port) by (nonlinear_arith)
            requires
                a.addr.ip as int * 0x10000 + a.addr.port == b.addr.ip as int * 0x10000
                    + b.addr.port,
                a.addr.port < 0x10000,
                b.addr.port < 0x10000,
        ;
        assert(a.addr == b.addr);
    }
}

/// Endpoint order, executable.
fn endpoint_before(a: &Backend, b: &Backend) -> (r: bool)
    ensures
        r == (a.addr.order_key() < b.addr.order_key()),
{
    a.addr.ip < b.addr.ip || (a.addr.ip == b.addr.ip && a.addr.port < b.addr.port)
}

} // verus!

use routini::backend::Backend;
use routini::registry::Backends;
use routini::strategy::fastest_server::FastestServer;
use routini::strategy::fewest_connections::FewestConnections;
use routini::strategy::fnv_hash::FNVHash;
use routini::strategy::least_connections::LeastConnections;
use routini::strategy::random::Random;
use routini::strategy::round_robin::RoundRobin;
use routini::strategy::utils::UniqueIterator;
use routini::strategy::BackendIter;
use std::collections::HashMap;

/// The ordered, deduplicated snapshot the registry would publish for
/// these backends.
fn sorted_set(list: Vec<Backend>) -> Vec<Backend> {
    let mut backends = Backends::new(list, 500);
    backends.update();
    backends.get_backend()
}

#[test]
fn test_fnv() {
    let b1 = Backend::new("1.1.1.1:80").unwrap();
    let mut b2 = Backend::new("1.0.0.1:80").unwrap();
    b2.weight = 10; // 10x than the rest
    let b3 = Backend::new("1.0.0.255:80").unwrap();
    let backends = sorted_set(vec![b1, b2, b3]);
    let mut hash = FNVHash.build_backend_selector(backends).unwrap();

    // same hash iter over
    let mut iter = hash.iter(b"test");
    // first, should be weighted
    assert_eq!(iter.next(&mut hash), Some(b2));
    // fallbacks, should be uniform, not weighted
    assert_eq!(iter.next(&mut hash), Some(b2));
    assert_eq!(iter.next(&mut hash), Some(b2));
    assert_eq!(iter.next(&mut hash), Some(b1));
    assert_eq!(iter.next(&mut hash), Some(b3));
    assert_eq!(iter.next(&mut hash), Some(b2));
    assert_eq!(iter.next(&mut hash), Some(b2));
    assert_eq!(iter.next(&mut hash), Some(b1));
    assert_eq!(iter.next(&mut hash), Some(b2));
    assert_eq!(iter.next(&mut hash), Some(b3));
    assert_eq!(iter.next(&mut hash), Some(b1));

    // different hashes, the first selection should be weighted
    let mut iter = hash.iter(b"test1");
    assert_eq!(iter.next(&mut hash), Some(b2));
    let mut iter = hash.iter(b"test2");
    assert_eq!(iter.next(&mut hash), Some(b2));
    let mut iter = hash.iter(b"test3");
    assert_eq!(iter.next(&mut hash), Some(b3));
    let mut iter = hash.iter(b"test4");
    assert_eq!(iter.next(&mut hash), Some(b1));
    let mut iter = hash.iter(b"test5");
    assert_eq!(iter.next(&mut hash), Some(b2));
    let mut iter = hash.iter(b"test6");
    assert_eq!(iter.next(&mut hash), Some(b2));
    let mut iter = hash.iter(b"test7");
    assert_eq!(iter.next(&mut hash), Some(b2));
}

#[test]
fn test_random() {
    let b1 = Backend::new("1.1.1.1:80").unwrap();
    let mut b2 = Backend::new("1.0.0.1:80").unwrap();
    b2.weight = 8; // 8x than the rest
    let b3 = Backend::new("1.0.0.255:80").unwrap();
    let backends = sorted_set(vec![b1, b2, b3]);
    let mut hash = Random.build_backend_selector(backends).unwrap();

    let mut count: HashMap<Backend, usize> = HashMap::new();
    count.insert(b1, 0);
    count.insert(b2, 0);
    count.insert(b3, 0);

    for _ in 0..10000 {
        let mut iter = hash.iter(b"test");
        let picked = iter.next(&mut hash).unwrap();
        *count.get_mut(&picked).unwrap() += 1;
    }
    let b2_count = *count.get(&b2).unwrap();
    assert!((7000..=9000).contains(&b2_count));
}

#[test]
fn test_round_robin() {
    let b1 = Backend::new("1.1.1.1:80").unwrap();
    let mut b2 = Backend::new("1.0.0.1:80").unwrap();
    b2.weight = 8; // 8x than the rest
    let b3 = Backend::new("1.0.0.255:80").unwrap();
    // sorted with: [b2, b3, b1]
    // weighted: [0, 0, 0, 0, 0, 0, 0, 0, 1, 2]
    let backends = sorted_set(vec![b1, b2, b3]);
    let mut hash = RoundRobin.build_backend_selector(backends).unwrap();

    // same hash iter over
    let mut iter = hash.iter(b"test");
    // first, should be weighted
    // weighted: [0, 0, 0, 0, 0, 0, 0, 0, 1, 2]
    //            ^
    assert_eq!(iter.next(&mut hash), Some(b2));
    // fallbacks, should be round robin
    assert_eq!(iter.next(&mut hash), Some(b3));
    assert_eq!(iter.next(&mut hash), Some(b1));
    assert_eq!(iter.next(&mut hash), Some(b2));
    assert_eq!(iter.next(&mut hash), Some(b3));

    // round robin, ignoring the hash key
    // index advanced 5 steps
    // weighted: [0, 0, 0, 0, 0, 0, 0, 0, 1, 2]
    //                           ^
    let mut iter = hash.iter(b"test1");
    assert_eq!(iter.next(&mut hash), Some(b2));
    let mut iter = hash.iter(b"test1");
    assert_eq!(iter.next(&mut hash), Some(b2));
    let mut iter = hash.iter(b"test1");
    assert_eq!(iter.next(&mut hash), Some(b2));
    let mut iter = hash.iter(b"test1");
    assert_eq!(iter.next(&mut hash), Some(b3));
    let mut iter = hash.iter(b"test1");
    assert_eq!(iter.next(&mut hash), Some(b1));
    let mut iter = hash.iter(b"test1");
    // rounded
    assert_eq!(iter.next(&mut hash), Some(b2));
    let mut iter = hash.iter(b"test1");
    assert_eq!(iter.next(&mut hash), Some(b2));
}

fn three_local_backends() -> (Backend, Backend, Backend) {
    (
        Backend::new("127.0.0.1:8080").unwrap(),
        Backend::new("127.0.0.1:8081").unwrap(),
        Backend::new("127.0.0.1:8082").unwrap(),
    )
}

#[test]
fn test_selection_order_by_connection_count() {
    let (backend1, backend2, backend3) = three_local_backends();
    let backends = sorted_set(vec![backend1, backend2, backend3]);

    // Set initial connection counts: backend1=0, backend2=5, backend3=10
    let counts = vec![0u64, 5, 10];

    let strategy = FewestConnections::default();
    let selector = strategy.build_backend_selector(&backends, &counts);

    // First backend should be backend1 (0 connections)
    let mut iter = selector.iter(&[]);
    let first = iter.next().expect("Should return first backend");
    assert_eq!(first.addr, backend1.addr);

    // Second should be backend2 (5 connections)
    let second = iter.next().expect("Should return second backend");
    assert_eq!(second.addr, backend2.addr);

    // Third should be backend3 (10 connections)
    let third = iter.next().expect("Should return third backend");
    assert_eq!(third.addr, backend3.addr);

    // No more backends
    assert!(iter.next().is_none());
}

#[test]
fn test_dynamic_connection_tracking() {
    let backend1 = Backend::new("127.0.0.1:8080").unwrap();
    let backend2 = Backend::new("127.0.0.1:8081").unwrap();
    let mut registry = Backends::new(vec![backend1, backend2], 500);
    registry.update();
    let backends = registry.get_backend();

    let strategy = FewestConnections::default();

    // Initial selection should pick backend1 (same count, first in order)
    let selector = strategy.build_backend_selector(&backends, &registry.connection_counts());
    let mut iter = selector.iter(&[]);
    let selected = iter.next().unwrap();
    assert_eq!(selected.addr, backend1.addr);

    // Simulate connection to backend1
    registry.on_connect(backend1.hash_key);
    assert_eq!(registry.connection_counts()[0], 1);
    assert_eq!(registry.connection_counts()[1], 0);

    // Rebuild selector - now backend2 should be first (0 connections vs 1)
    let selector = strategy.build_backend_selector(&backends, &registry.connection_counts());
    let mut iter = selector.iter(&[]);
    let selected = iter.next().unwrap();
    assert_eq!(selected.addr, backend2.addr);

    // Simulate connection to backend2
    registry.on_connect(backend2.hash_key);

    // Both now have 1 connection
    assert_eq!(registry.connection_counts(), vec![1, 1]);
}

#[test]
fn test_connection_decrement() {
    let backend = Backend::new("127.0.0.1:8080").unwrap();
    let mut registry = Backends::new(vec![backend], 500);
    registry.update();

    // Increment twice
    registry.on_connect(backend.hash_key);
    registry.on_connect(backend.hash_key);
    assert_eq!(registry.connection_counts(), vec![2]);

    // Decrement once
    registry.on_disconnect(backend.hash_key);
    assert_eq!(registry.connection_counts(), vec![1]);

    // Decrement again
    registry.on_disconnect(backend.hash_key);
    assert_eq!(registry.connection_counts(), vec![0]);
}

#[test]
fn fewest_connections_test_iter_exhaustion() {
    let backend1 = Backend::new("127.0.0.1:8080").unwrap();
    let backend2 = Backend::new("127.0.0.1:8081").unwrap();
    let backends = sorted_set(vec![backend1, backend2]);

    let strategy = FewestConnections::default();
    let selector = strategy.build_backend_selector(&backends, &vec![0, 0]);

    let mut iter = selector.iter(&[]);

    // Should return both backends
    assert!(iter.next().is_some());
    assert!(iter.next().is_some());

    // Then None
    assert!(iter.next().is_none());
    assert!(iter.next().is_none());
}

#[test]
fn fewest_connections_test_empty_backends() {
    let backends: Vec<Backend> = Vec::new();
    let strategy = FewestConnections::default();
    let selector = strategy.build_backend_selector(&backends, &Vec::new());

    let mut iter = selector.iter(&[]);
    assert!(iter.next().is_none());
}

#[test]
fn test_selection_order_by_latency() {
    let (backend1, backend2, backend3) = three_local_backends();
    let backends = sorted_set(vec![backend1, backend2, backend3]);

    // Initial latencies: backend1=50ms, backend2=10ms, backend3=100ms
    let latencies = vec![50_000u64, 10_000, 100_000];

    let strategy = FastestServer;
    let selector = strategy.build_backend_selector(&backends, &latencies);

    // First backend should be backend2 (10ms - fastest)
    let mut iter = selector.iter(&[]);
    let first = iter.next().expect("Should return first backend");
    assert_eq!(first.addr, backend2.addr);

    // Second should be backend1 (50ms)
    let second = iter.next().expect("Should return second backend");
    assert_eq!(second.addr, backend1.addr);

    // Third should be backend3 (100ms - slowest)
    let third = iter.next().expect("Should return third backend");
    assert_eq!(third.addr, backend3.addr);

    // No more backends
    assert!(iter.next().is_none());
}

#[test]
fn test_dynamic_latency_tracking() {
    let backend1 = Backend::new("127.0.0.1:8080").unwrap();
    let backend2 = Backend::new("127.0.0.1:8081").unwrap();
    let mut registry = Backends::new(vec![backend1, backend2], 500);
    registry.update();
    let backends = registry.get_backend();

    let strategy = FastestServer;

    // Initial selection should pick backend1 (same latency, first in order)
    let selector = strategy.build_backend_selector(&backends, &registry.latency_averages());
    let mut iter = selector.iter(&[]);
    let selected = iter.next().unwrap();
    assert_eq!(selected.addr, backend1.addr);

    // Simulate backend1 becoming slower
    registry.record_latency(backend1.hash_key, 100_000);
    assert_eq!(registry.latency_averages(), vec![100_000, 0]);

    // Rebuild selector - now backend2 should be first (no sample vs 100ms)
    let selector = strategy.build_backend_selector(&backends, &registry.latency_averages());
    let mut iter = selector.iter(&[]);
    let selected = iter.next().unwrap();
    assert_eq!(selected.addr, backend2.addr);

    // Simulate backend2 also becoming slower
    registry.record_latency(backend2.hash_key, 200_000);

    // Rebuild selector - backend1 should be first now (100ms vs 200ms)
    let selector = strategy.build_backend_selector(&backends, &registry.latency_averages());
    let mut iter = selector.iter(&[]);
    let selected = iter.next().unwrap();
    assert_eq!(selected.addr, backend1.addr);
}

#[test]
fn test_latency_updates() {
    let backend = Backend::new("127.0.0.1:8080").unwrap();
    let mut registry = Backends::new(vec![backend], 500);
    registry.update();

    // Initial latency
    assert_eq!(registry.latency_averages(), vec![0]);

    // First update should set it directly (since the average was empty)
    registry.record_latency(backend.hash_key, 100_000);
    assert_eq!(registry.latency_averages(), vec![100_000]);

    // Second update will use the EWMA: a weighted average
    registry.record_latency(backend.hash_key, 200_000);
    let latency = registry.latency_averages()[0];
    // Should be between 100 and 200 ms
    assert!(latency > 100_000 && latency < 200_000);

    // Third update continues the EWMA
    registry.record_latency(backend.hash_key, 50_000);
    let new_latency = registry.latency_averages()[0];
    // Should be less than previous but not exactly 50 ms
    assert!(new_latency < latency);
}

#[test]
fn fastest_server_test_iter_exhaustion() {
    let backend1 = Backend::new("127.0.0.1:8080").unwrap();
    let backend2 = Backend::new("127.0.0.1:8081").unwrap();
    let backends = sorted_set(vec![backend1, backend2]);

    let strategy = FastestServer;
    let selector = strategy.build_backend_selector(&backends, &vec![0, 0]);

    let mut iter = selector.iter(&[]);

    // Should return both backends
    assert!(iter.next().is_some());
    assert!(iter.next().is_some());

    // Then None
    assert!(iter.next().is_none());
    assert!(iter.next().is_none());
}

#[test]
fn fastest_server_test_empty_backends() {
    let backends: Vec<Backend> = Vec::new();
    let strategy = FastestServer;
    let selector = strategy.build_backend_selector(&backends, &Vec::new());

    let mut iter = selector.iter(&[]);
    assert!(iter.next().is_none());
}

#[test]
fn test_single_backend() {
    let backend = Backend::new("127.0.0.1:8080").unwrap();
    let backends = sorted_set(vec![backend]);

    let strategy = FastestServer;
    let selector = strategy.build_backend_selector(&backends, &vec![123_000]);

    let mut iter = selector.iter(&[]);
    let selected = iter.next().expect("Should return the only backend");
    assert_eq!(selected.addr, backend.addr);
    assert!(iter.next().is_none());
}

#[test]
fn test_equal_latencies() {
    let (backend1, backend2, backend3) = three_local_backends();
    let backends = sorted_set(vec![backend1, backend2, backend3]);

    // All the same latency
    let latencies = vec![50_000u64, 50_000, 50_000];

    let strategy = FastestServer;
    let selector = strategy.build_backend_selector(&backends, &latencies);

    let mut iter = selector.iter(&[]);

    // Should return all three backends (stable order on ties)
    assert!(iter.next().is_some());
    assert!(iter.next().is_some());
    assert!(iter.next().is_some());
    assert!(iter.next().is_none());
}

#[test]
fn test_extreme_latencies() {
    let (backend1, backend2, backend3) = three_local_backends();
    let backends = sorted_set(vec![backend1, backend2, backend3]);

    // Extreme values: very fast (1 microsecond), very slow (999 s), normal
    let latencies = vec![1u64, 999_000_000, 100_000];

    let strategy = FastestServer;
    let selector = strategy.build_backend_selector(&backends, &latencies);

    let mut iter = selector.iter(&[]);

    // Should return in order: backend1 (fastest), backend3 (normal), backend2 (slowest)
    let first = iter.next().unwrap();
    assert_eq!(first.addr, backend1.addr);

    let second = iter.next().unwrap();
    assert_eq!(second.addr, backend3.addr);

    let third = iter.next().unwrap();
    assert_eq!(third.addr, backend2.addr);

    assert!(iter.next().is_none());
}

#[test]
fn test_next() {
    let backend1_addr = "127.0.0.1:8080";
    let backend2_addr = "127.0.0.1:8081";
    let backend3_addr = "127.0.0.1:8082";

    let backends: Vec<Backend> = [backend1_addr, backend2_addr, backend3_addr]
        .iter()
        .map(|a| Backend::new(a).unwrap())
        .collect();
    let backends = sorted_set(backends);

    let least_connections = LeastConnections::new(&backends);
    // Connection counts start as the backend's position: 0, 1, 2.
    let mut counts: Vec<u64> = vec![0, 1, 2];

    let mut get_connection = |counts: &mut Vec<u64>| -> Option<Backend> {
        let mut iter = least_connections.iter(&[], counts);
        let backend = iter.next()?;
        let i = backends.iter().position(|b| b.addr == backend.addr).unwrap();
        counts[i] += 1;
        Some(backend)
    };

    let e1 = Backend::new(backend1_addr).unwrap().addr;
    let e2 = Backend::new(backend2_addr).unwrap().addr;
    let e3 = Backend::new(backend3_addr).unwrap().addr;

    assert_eq!(get_connection(&mut counts).expect("Failed to connect to backend").addr, e1);
    assert_eq!(get_connection(&mut counts).expect("Failed to connect to backend").addr, e1);
    assert_eq!(get_connection(&mut counts).expect("Failed to connect to backend").addr, e2);
    assert_eq!(get_connection(&mut counts).expect("Failed to connect to backend").addr, e1);
    assert_eq!(get_connection(&mut counts).expect("Failed to connect to backend").addr, e2);
    assert_eq!(get_connection(&mut counts).expect("Failed to connect to backend").addr, e3);
}

struct TestIter {
    seq: Vec<Backend>,
    idx: usize,
}

impl TestIter {
    fn new(input: &[&Backend]) -> Self {
        Self { seq: input.iter().cloned().cloned().collect(), idx: 0 }
    }
}

impl BackendIter for TestIter {
    fn next(&mut self) -> Option<Backend> {
        let idx = self.idx;
        self.idx += 1;
        self.seq.get(idx).cloned()
    }
}

#[test]
fn unique_iter_max_iterations_is_correct() {
    let b1 = Backend::new("1.1.1.1:80").unwrap();
    let b2 = Backend::new("1.0.0.1:80").unwrap();
    let b3 = Backend::new("1.0.0.255:80").unwrap();
    let items = [&b1, &b2, &b3];

    let mut all = UniqueIterator::new(TestIter::new(&items), 3);
    assert_eq!(all.get_next(), Some(b1));
    assert_eq!(all.get_next(), Some(b2));
    assert_eq!(all.get_next(), Some(b3));
    assert_eq!(all.get_next(), None);

    let mut stop = UniqueIterator::new(TestIter::new(&items), 1);
    assert_eq!(stop.get_next(), Some(b1));
    assert_eq!(stop.get_next(), None);
}

#[test]
fn unique_iter_duplicate_items_are_filtered() {
    let b1 = Backend::new("1.1.1.1:80").unwrap();
    let b2 = Backend::new("1.0.0.1:80").unwrap();
    let b3 = Backend::new("1.0.0.255:80").unwrap();
    let items = [&b1, &b1, &b2, &b2, &b2, &b3];

    let mut uniq = UniqueIterator::new(TestIter::new(&items), 10);
    assert_eq!(uniq.get_next(), Some(b1));
    assert_eq!(uniq.get_next(), Some(b2));
    assert_eq!(uniq.get_next(), Some(b3));
}

use routini::adaptive_lb::AdaptiveLoadBalancer;
use routini::backend::Backend;
use routini::load_balancer::LoadBalancer;
use routini::registry::Backends;
use routini::strategy::adaptive::Adaptive;
use routini::strategy::consistent::Consistent;
use routini::strategy::fnv_hash::FNVHash;
use routini::strategy::utils::UniqueIterator;
use routini::strategy::BackendIter;
use std::collections::HashMap;

fn addrs(list: &[&str]) -> Vec<String> {
    list.iter().map(|s| s.to_string()).collect()
}

fn sorted_set(list: Vec<Backend>) -> Vec<Backend> {
    let mut backends = Backends::new(list, 500);
    backends.update();
    backends.get_backend()
}

#[test]
fn even_round_robin() {
    // 3 backends, weight 1, 30 sequential selections: 10 each.
    let mut lb = LoadBalancer::try_from_iter_with_strategy(
        &addrs(&["10.0.0.1:80", "10.0.0.2:80", "10.0.0.3:80"]),
        Adaptive::RoundRobin,
        500,
    )
    .unwrap();
    let mut counts: HashMap<u64, usize> = HashMap::new();
    for _ in 0..30 {
        let b = lb.select(&[], 256).expect("a ready backend exists");
        *counts.entry(b.hash_key).or_insert(0) += 1;
    }
    assert_eq!(counts.len(), 3);
    assert!(counts.values().all(|&c| c == 10));
}

#[test]
fn weighted_first_pick() {
    // Weights {A:1, B:8, C:1}, FNV hashing, 10 000 distinct keys: the
    // first-pick count for B lands in [7500, 8500].
    let a = Backend::new("10.0.0.1:80").unwrap();
    let mut b = Backend::new("10.0.0.2:80").unwrap();
    b.weight = 8;
    let c = Backend::new("10.0.0.3:80").unwrap();
    let backends = sorted_set(vec![a, b, c]);
    let mut sel = FNVHash.build_backend_selector(backends).unwrap();

    let mut b_count = 0usize;
    for i in 0..10_000 {
        let key = format!("key{}", i);
        let mut iter = sel.iter(key.as_bytes());
        if iter.next(&mut sel).unwrap() == b {
            b_count += 1;
        }
    }
    assert!((7500..=8500).contains(&b_count), "b_count = {}", b_count);
}

#[test]
fn health_gating() {
    // 3 backends, one marked unhealthy: 100 selections avoid it; once it
    // is healthy again, it shows up.
    let mut lb = AdaptiveLoadBalancer::try_from_iter(&addrs(&[
        "10.0.0.1:80",
        "10.0.0.2:80",
        "10.0.0.3:80",
    ]))
    .unwrap();
    let bad = Backend::new("10.0.0.2:80").unwrap();
    lb.set_ready(&bad, false);

    for _ in 0..100 {
        let picked = lb.select(&[]).expect("two ready backends remain");
        assert_ne!(picked.addr, bad.addr);
    }

    lb.set_ready(&bad, true);
    let mut saw_bad = false;
    for _ in 0..10 {
        if lb.select(&[]).unwrap().addr == bad.addr {
            saw_bad = true;
        }
    }
    assert!(saw_bad);
}

#[test]
fn select_none_when_all_unready() {
    let mut lb = AdaptiveLoadBalancer::try_from_iter(&addrs(&["10.0.0.1:80"])).unwrap();
    let only = Backend::new("10.0.0.1:80").unwrap();
    lb.set_ready(&only, false);
    assert_eq!(lb.select(&[]), None);
    lb.set_ready(&only, true);
    assert!(lb.select(&[]).is_some());
}

#[test]
fn update_strategy_idempotence() {
    // Re-applying the current strategy reports no change; a different one
    // does, and back again.
    let mut lb = AdaptiveLoadBalancer::try_from_iter(&addrs(&["10.0.0.1:80"])).unwrap();
    assert!(!lb.update_strategy(Adaptive::RoundRobin));
    assert!(lb.update_strategy(Adaptive::FewestConnections));
    assert!(!lb.update_strategy(Adaptive::FewestConnections));
    assert!(lb.update_strategy(Adaptive::RoundRobin));
}

struct StuckIter {
    backend: Backend,
}

impl BackendIter for StuckIter {
    fn next(&mut self) -> Option<Backend> {
        Some(self.backend)
    }
}

#[test]
fn unique_iterator_bound() {
    // A pathological selector yields the same backend forever; with a
    // budget of 5 the wrapper hands it out once and then gives up after
    // five inner steps.
    let b = Backend::new("10.0.0.1:80").unwrap();
    let mut uniq = UniqueIterator::new(StuckIter { backend: b }, 5);
    assert_eq!(uniq.get_next(), Some(b));
    assert_eq!(uniq.get_next(), None);
    assert_eq!(uniq.get_next(), None);
}

#[test]
fn consistent_hash_stability() {
    // For a fixed backend set and key, the first pick is the same across
    // requests and across rebuilds over the same set.
    let backends = sorted_set(vec![
        Backend::new("10.0.0.1:80").unwrap(),
        Backend::new("10.0.0.2:80").unwrap(),
        Backend::new("10.0.0.3:80").unwrap(),
    ]);
    let sel1 = Consistent.build_backend_selector(&backends).unwrap();
    let sel2 = Consistent.build_backend_selector(&backends).unwrap();

    for key in [b"alpha".as_slice(), b"beta", b"gamma", b"delta"] {
        let p1 = sel1.iter(key).next(&sel1).unwrap();
        let p2 = sel1.iter(key).next(&sel1).unwrap();
        let p3 = sel2.iter(key).next(&sel2).unwrap();
        assert_eq!(p1.addr, p2.addr);
        assert_eq!(p1.addr, p3.addr);
    }
}

#[test]
fn consistent_hash_minimal_remap() {
    // Adding one backend to ten remaps only a small fraction of keys.
    let mut ten: Vec<Backend> = Vec::new();
    for i in 1..=10 {
        ten.push(Backend::new(&format!("10.0.0.{}:80", i)).unwrap());
    }
    let mut eleven = ten.clone();
    eleven.push(Backend::new("10.0.0.11:80").unwrap());

    let sel10 = Consistent.build_backend_selector(&sorted_set(ten)).unwrap();
    let sel11 = Consistent.build_backend_selector(&sorted_set(eleven)).unwrap();

    let mut changed = 0usize;
    for i in 0..1000 {
        let key = format!("user{}", i);
        let p10 = sel10.iter(key.as_bytes()).next(&sel10).unwrap();
        let p11 = sel11.iter(key.as_bytes()).next(&sel11).unwrap();
        if p10.addr != p11.addr {
            changed += 1;
        }
    }
    // The expectation is about 1/11 of the keys; allow generous slack.
    assert!(changed < 250, "changed = {}", changed);
}

#[test]
fn fastest_server_dynamic() {
    // Preset latencies {A:50ms, B:10ms, C:100ms}: first pick B; raising
    // B's latency to 200ms and rebuilding moves the first pick to A.
    let mut lb = AdaptiveLoadBalancer::try_from_iter(&addrs(&[
        "10.0.0.1:80",
        "10.0.0.2:80",
        "10.0.0.3:80",
    ]))
    .unwrap();
    let a = Backend::new("10.0.0.1:80").unwrap();
    let b = Backend::new("10.0.0.2:80").unwrap();
    let c = Backend::new("10.0.0.3:80").unwrap();
    lb.record_latency(&a, 50_000);
    lb.record_latency(&b, 10_000);
    lb.record_latency(&c, 100_000);

    lb.update_strategy(Adaptive::FastestServer);
    assert!(lb.rebuild_selector());
    assert_eq!(lb.select(&[]).unwrap().addr, b.addr);

    // B got slow: one 390ms sample moves its average to 200ms.
    lb.record_latency(&b, 390_000);
    assert!(lb.rebuild_selector());
    assert_eq!(lb.select(&[]).unwrap().addr, a.addr);
}

#[test]
fn fewest_connections_via_balancer() {
    // Connection counts {A:0, B:5, C:10} and the fewest-connections
    // strategy: the first pick is A.
    let mut lb = AdaptiveLoadBalancer::try_from_iter(&addrs(&[
        "10.0.0.1:80",
        "10.0.0.2:80",
        "10.0.0.3:80",
    ]))
    .unwrap();
    let a = Backend::new("10.0.0.1:80").unwrap();
    let b = Backend::new("10.0.0.2:80").unwrap();
    let c = Backend::new("10.0.0.3:80").unwrap();
    for _ in 0..5 {
        lb.on_connect(&b);
    }
    for _ in 0..10 {
        lb.on_connect(&c);
    }
    lb.update_strategy(Adaptive::FewestConnections);
    assert!(lb.rebuild_selector());
    assert_eq!(lb.select(&[]).unwrap().addr, a.addr);
}

#[test]
fn select_with_custom_accept() {
    // An accept function that ignores health keeps traffic flowing even
    // when every backend is marked unready.
    let mut lb = LoadBalancer::try_from_iter_with_strategy(
        &addrs(&["10.0.0.1:80", "10.0.0.2:80"]),
        Adaptive::RoundRobin,
        500,
    )
    .unwrap();
    let a = Backend::new("10.0.0.1:80").unwrap();
    let b = Backend::new("10.0.0.2:80").unwrap();
    lb.backends_mut().set_ready(a.hash_key, false);
    lb.backends_mut().set_ready(b.hash_key, false);
    assert_eq!(lb.select(&[], 16), None);
    assert!(lb.select_with(&[], 16, |_, _| true).is_some());
    // The default acceptance is exactly the health flag.
    assert_eq!(lb.select_with(&[], 16, |_, healthy| healthy), None);
}

#[test]
fn selector_caps_are_enforced() {
    // A weighted expansion past 2^16 entries is a configuration error.
    let mut a = Backend::new("10.0.0.1:80").unwrap();
    a.weight = 40_000;
    let mut b = Backend::new("10.0.0.2:80").unwrap();
    b.weight = 40_000;
    let backends = sorted_set(vec![a, b]);
    assert!(FNVHash.build_backend_selector(backends).is_err());
}

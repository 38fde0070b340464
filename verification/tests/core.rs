use routini::addr::{endpoint_to_bytes, parse_endpoint, Endpoint};
use routini::backend::Backend;
use routini::fnv1a64;
use routini::metrics::{BackendMetrics, MetricsTable};
use routini::registry::Backends;
use routini::strategy::adaptive::Adaptive;

#[test]
fn fnv_known_vectors() {
    // Reference values of 64-bit FNV-1a.
    assert_eq!(fnv1a64(b""), 0xcbf29ce484222325);
    assert_eq!(fnv1a64(b"a"), 0xaf63dc4c8601ec8c);
    assert_eq!(fnv1a64(b"foobar"), 0x85944171f73967e8);
}

#[test]
fn parse_canonical_endpoint() {
    let e = parse_endpoint(b"127.0.0.1:8080").expect("canonical address");
    assert_eq!(e.port, 8080);
    assert_eq!(e.ip, (127 << 24) | 1);
    let e = parse_endpoint(b"1.0.0.255:80").expect("canonical address");
    assert_eq!(e.ip, (1 << 24) | 255);
    assert_eq!(e.port, 80);
}

#[test]
fn parse_rejects_non_canonical() {
    assert!(parse_endpoint(b"").is_none());
    assert!(parse_endpoint(b"127.0.0.1").is_none());
    assert!(parse_endpoint(b"127.0.0.01:80").is_none());
    assert!(parse_endpoint(b"256.0.0.1:80").is_none());
    assert!(parse_endpoint(b"1.2.3.4:65536").is_none());
    assert!(parse_endpoint(b"1.2.3.4:80 ").is_none());
    assert!(parse_endpoint(b"localhost:80").is_none());
    assert!(parse_endpoint(b"1.2.3:80").is_none());
}

#[test]
fn endpoint_round_trip() {
    let e = Endpoint { ip: (192 << 24) | (168 << 16) | (1 << 8) | 42, port: 65535 };
    let text = endpoint_to_bytes(&e);
    assert_eq!(text, b"192.168.1.42:65535".to_vec());
    assert_eq!(parse_endpoint(&text), Some(e));
}

#[test]
fn backend_identity_is_the_endpoint() {
    let a = Backend::new("1.1.1.1:80").unwrap();
    let mut b = Backend::new("1.1.1.1:80").unwrap();
    b.weight = 7;
    let c = Backend::new("1.1.1.1:81").unwrap();
    assert_eq!(a, b);
    assert_ne!(a, c);
    assert_ne!(a.hash_key, c.hash_key);
}

#[test]
fn ewma_first_sample_taken_whole() {
    let mut m = BackendMetrics::new(500);
    assert_eq!(m.average_latency(), Some(0));
    m.record_latency(100_000);
    assert_eq!(m.average_latency(), Some(100_000));
}

#[test]
fn ewma_smooths_later_samples() {
    let mut m = BackendMetrics::new(500);
    m.record_latency(100_000);
    m.record_latency(200_000);
    // (500 * 200000 + 500 * 100000 + 500) / 1000
    assert_eq!(m.average_latency(), Some(150_000));
    let before = m.average_latency().unwrap();
    m.record_latency(50_000);
    assert!(m.average_latency().unwrap() < before);
}

#[test]
fn ewma_constant_samples_converge() {
    let mut m = BackendMetrics::new(500);
    m.record_latency(100_000);
    for _ in 0..30 {
        m.record_latency(80_000);
    }
    // The average settles within the rounding grain of the target.
    let avg = m.average_latency().unwrap();
    assert!((80_000..=80_001).contains(&avg));
}

#[test]
fn ewma_zero_stays_zero() {
    let mut m = BackendMetrics::new(500);
    m.record_latency(0);
    m.record_latency(0);
    assert_eq!(m.average_latency(), Some(0));
}

#[test]
fn connection_counter_never_underflows() {
    let mut m = BackendMetrics::new(500);
    m.decrement_connection_count();
    assert_eq!(m.active_connections(), Some(0));
    m.increment_connection_count();
    m.increment_connection_count();
    m.decrement_connection_count();
    assert_eq!(m.active_connections(), Some(1));
}

#[test]
fn registry_orders_and_dedups() {
    let b1 = Backend::new("1.1.1.1:80").unwrap();
    let b2 = Backend::new("1.0.0.1:80").unwrap();
    let dup = Backend::new("1.1.1.1:80").unwrap();
    let mut backends = Backends::new(vec![b1, b2, dup], 500);
    let changed = backends.update();
    assert!(changed);
    let snap = backends.get_backend();
    assert_eq!(snap.len(), 2);
    assert_eq!(snap[0].addr, b2.addr);
    assert_eq!(snap[1].addr, b1.addr);
    // A second discovery pass with the same set changes nothing.
    assert!(!backends.update());
}

#[test]
fn registry_preserves_readiness_and_metrics_across_updates() {
    let b1 = Backend::new("10.0.0.1:80").unwrap();
    let b2 = Backend::new("10.0.0.2:80").unwrap();
    let mut backends = Backends::new(vec![b1, b2], 500);
    backends.update();
    backends.set_ready(b1.hash_key, false);
    backends.on_connect(b2.hash_key);
    backends.on_connect(b2.hash_key);
    backends.record_latency(b2.hash_key, 30_000);
    // Re-discover the same set: flags and counters survive.
    backends.update();
    assert!(!backends.ready(&b1));
    assert!(backends.ready(&b2));
    let counts = backends.connection_counts();
    let lats = backends.latency_averages();
    let snap = backends.get_backend();
    let i2 = snap.iter().position(|b| b.addr == b2.addr).unwrap();
    assert_eq!(counts[i2], 2);
    assert_eq!(lats[i2], 30_000);
}

#[test]
fn discovery_readiness_overrides() {
    // A discovery that reports readiness: the named backend starts
    // unready, the others default to ready.
    let good1 = Backend::new("1.1.1.1:80").unwrap();
    let good2 = Backend::new("1.0.0.1:80").unwrap();
    let bad = Backend::new("127.0.0.1:79").unwrap();
    let mut backends = Backends::new(vec![good1, good2, bad], 500);
    let discovered = backends.get_backend();
    let set = vec![good1, good2, bad];
    let overrides = vec![(bad.hash_key, false)];
    let changed = backends.update_with_readiness(&set, &overrides);
    assert!(changed);
    assert!(backends.ready(&good1));
    assert!(backends.ready(&good2));
    assert!(!backends.ready(&bad));
    drop(discovered);

    // A later probe outcome wins over the old flag on the next update.
    let overrides = vec![(bad.hash_key, true)];
    backends.update_with_readiness(&set, &overrides);
    assert!(backends.ready(&bad));
}

#[test]
fn strategy_names() {
    assert_eq!(Adaptive::RoundRobin.name(), "RoundRobin");
    assert_eq!(Adaptive::FewestConnections.name(), "FewestConnections");
    assert_eq!(Adaptive::FastestServer.name(), "FastestServer");
}

#[test]
fn metrics_table_tracks_by_key() {
    let b1 = Backend::new("10.0.0.1:80").unwrap();
    let b2 = Backend::new("10.0.0.2:80").unwrap();
    let mut table = MetricsTable::new(500);
    let fresh = table.carried_over(&vec![b1, b2]);
    let mut table = fresh;
    table.on_connect(b1.hash_key);
    table.on_connect(b1.hash_key);
    table.on_disconnect(b1.hash_key);
    assert_eq!(table.connection_count_of(b1.hash_key), 1);
    assert_eq!(table.connection_count_of(b2.hash_key), 0);
    // An unknown key is ignored.
    table.on_connect(12345);
    assert_eq!(table.connection_count_of(12345), 0);
}

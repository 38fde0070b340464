use routini::errors::ConfigError;
use routini::options::DEFAULT_MAX_ALGORITHM_ITERATIONS;
use routini::routes::{is_valid_pattern, stripped_path, Route, RouteConfig};
use routini::strategy::adaptive::Adaptive;

fn addrs(list: &[&str]) -> Vec<String> {
    list.iter().map(|s| s.to_string()).collect()
}

#[test]
fn test_route_valid_simple_path() {
    let route = Route::new("/api", &addrs(&["127.0.0.1:8080"]), Adaptive::default());
    assert!(route.is_ok());
    let mut route = route.unwrap();
    assert_eq!(route.path, "/api");

    // Initialize backends from discovery
    route.backends.update();
    assert_eq!(route.backends.get_backend().len(), 1);
}

#[test]
fn test_route_valid_path_with_wildcard() {
    let route = Route::new("/api/*", &addrs(&["127.0.0.1:8080"]), Adaptive::default());
    assert!(route.is_ok());
    let route = route.unwrap();
    assert_eq!(route.path, "/api/{*rest}");
}

#[test]
fn test_route_valid_nested_path_with_wildcard() {
    let route = Route::new("/api/v1/*", &addrs(&["127.0.0.1:8080"]), Adaptive::default());
    assert!(route.is_ok());
    let route = route.unwrap();
    assert_eq!(route.path, "/api/v1/{*rest}");
}

#[test]
fn test_route_valid_root_path() {
    let route = Route::new("/", &addrs(&["127.0.0.1:8080"]), Adaptive::default());
    assert!(route.is_ok());
}

#[test]
fn test_route_invalid_path_no_leading_slash() {
    let route = Route::new("api", &addrs(&["127.0.0.1:8080"]), Adaptive::default());
    assert!(route.is_err());
    if let Err(err) = route {
        assert!(err.message().contains("Invalid path"));
        assert!(err.message().contains("must start with '/'"));
    }
}

#[test]
fn test_route_invalid_path_wildcard_not_at_end() {
    let route = Route::new("/api/*/users", &addrs(&["127.0.0.1:8080"]), Adaptive::default());
    assert!(route.is_err());
    if let Err(err) = route {
        assert!(err.message().contains("Invalid path"));
    }
}

#[test]
fn test_route_invalid_path_multiple_wildcards() {
    let route = Route::new("/api/**", &addrs(&["127.0.0.1:8080"]), Adaptive::default());
    assert!(route.is_err());
    if let Err(err) = route {
        assert!(err.message().contains("Invalid path"));
        assert!(err.message().contains("at most one *"));
    }
}

#[test]
fn test_route_invalid_empty_backends() {
    let empty: Vec<String> = Vec::new();
    let route = Route::new("/api", &empty, Adaptive::default());
    assert!(route.is_err());
    if let Err(err) = route {
        assert!(err.message().contains("Must provide at least one backend"));
    }
}

#[test]
fn test_route_invalid_backend_address() {
    let route = Route::new("/api", &addrs(&["not-an-address"]), Adaptive::default());
    assert_eq!(route.err(), Some(ConfigError::InvalidAddress));
}

#[test]
fn test_route_multiple_valid_backends() {
    let route = Route::new(
        "/api",
        &addrs(&["127.0.0.1:8080", "127.0.0.1:8081", "127.0.0.1:8082"]),
        Adaptive::default(),
    );
    assert!(route.is_ok());
    let mut route = route.unwrap();

    // Initialize backends from discovery
    route.backends.update();
    assert_eq!(route.backends.get_backend().len(), 3);
}

#[test]
fn test_route_builder_pattern() {
    let route = Route::new("/api/*", &addrs(&["127.0.0.1:8080"]), Adaptive::default())
        .unwrap()
        .max_iterations(20)
        .include_health_check(None)
        .route_config(RouteConfig { strip_path_prefix: false });

    assert_eq!(route.max_iterations, 20);
    assert_eq!(route.health_check_frequency, None);
    assert_eq!(route.route_config.strip_path_prefix, false);
}

#[test]
fn test_route_default_values() {
    let route = Route::new("/api", &addrs(&["127.0.0.1:8080"]), Adaptive::default()).unwrap();

    assert_eq!(route.max_iterations, DEFAULT_MAX_ALGORITHM_ITERATIONS);
    assert_eq!(route.health_check_frequency, Some(1000));
    assert_eq!(route.route_config.strip_path_prefix, true);
}

#[test]
fn test_route_config_default() {
    let config = RouteConfig::default();
    assert_eq!(config.strip_path_prefix, true);
}

#[test]
fn test_route_path_with_segments() {
    let route = Route::new(
        "/api/v1/users/{id}/*",
        &addrs(&["127.0.0.1:8080"]),
        Adaptive::default(),
    );
    assert!(route.is_ok());
    let route = route.unwrap();
    assert_eq!(route.path, "/api/v1/users/{id}/{*rest}");
}

#[test]
fn test_path_regex_validation() {
    // Direct pattern checks
    assert!(is_valid_pattern("/api"));
    assert!(is_valid_pattern("/api/*"));
    assert!(is_valid_pattern("/api/v1/users/*"));
    assert!(is_valid_pattern("/"));

    assert!(!is_valid_pattern("api"));
    assert!(!is_valid_pattern("/api/*/users"));
    assert!(!is_valid_pattern("/api/**"));
    assert!(!is_valid_pattern("/**/api"));
}

#[test]
fn stripped_path_adds_leading_slash() {
    assert_eq!(stripped_path(true, Some("login")), Some("/login".to_string()));
    assert_eq!(stripped_path(true, Some("/login")), Some("/login".to_string()));
    assert_eq!(stripped_path(true, None), None);
    assert_eq!(stripped_path(false, Some("login")), None);
}

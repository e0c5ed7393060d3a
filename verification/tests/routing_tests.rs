use torana_core::config::{HeaderConfig, RouteConfig, TimeoutConfig, UpstreamConfig};
use torana_core::routing::{host_matches, path_matches, select_route};

fn route(name: &str, host: Option<&str>, path: Option<&str>) -> RouteConfig {
    RouteConfig {
        name: name.to_string(),
        host: host.map(String::from),
        path: path.map(String::from),
        when: None,
        upstream: vec![UpstreamConfig {
            addr: "http://127.0.0.1:9000".into(),
            weight: None,
        }],
        mirror: None,
        timeout: TimeoutConfig::default(),
        headers: HeaderConfig::default(),
        health_check: None,
        retries: None,
        plugin: None,
    }
}

#[test]
fn matches_catch_all_when_no_constraints() {
    let routes = vec![route("default", None, None)];
    assert_eq!(
        select_route(&routes, Some("example.com"), "/anything")
            .unwrap()
            .name,
        "default"
    );
    assert_eq!(select_route(&routes, None, "/").unwrap().name, "default");
}

#[test]
fn matches_exact_host() {
    let routes = vec![route("api", Some("api.example.com"), None)];
    assert!(select_route(&routes, Some("api.example.com"), "/").is_some());
    assert!(select_route(&routes, Some("api.example.com:8080"), "/").is_some());
    assert!(select_route(&routes, Some("other.example.com"), "/").is_none());
    assert!(select_route(&routes, None, "/").is_none());
}

#[test]
fn matches_wildcard_host() {
    let routes = vec![route("tenant", Some("*.example.com"), None)];
    assert!(select_route(&routes, Some("a.example.com"), "/").is_some());
    assert!(select_route(&routes, Some("example.com"), "/").is_some());
    assert!(select_route(&routes, Some("notexample.com"), "/").is_none());
}

#[test]
fn matches_path_prefix_on_segment_boundary() {
    let routes = vec![route("api", None, Some("/api"))];
    assert!(select_route(&routes, None, "/api").is_some());
    assert!(select_route(&routes, None, "/api/v1/users").is_some());
    assert!(select_route(&routes, None, "/apiary").is_none());
    assert!(select_route(&routes, None, "/").is_none());
}

#[test]
fn first_match_wins_in_config_order() {
    let routes = vec![
        route("specific", Some("api.example.com"), Some("/v1")),
        route("catch-all", None, None),
    ];
    assert_eq!(
        select_route(&routes, Some("api.example.com"), "/v1/x")
            .unwrap()
            .name,
        "specific"
    );
    assert_eq!(
        select_route(&routes, Some("other.com"), "/v1/x")
            .unwrap()
            .name,
        "catch-all"
    );
}

#[test]
fn no_match_returns_none() {
    let routes = vec![route("api", Some("api.example.com"), Some("/v1"))];
    assert!(select_route(&routes, Some("api.example.com"), "/v2").is_none());
}

#[test]
fn host_matching_ignores_ascii_case() {
    assert!(host_matches(Some("API.Example.com"), Some("api.example.COM")));
    assert!(host_matches(Some("*.Example.com"), Some("A.B.EXAMPLE.com:443")));
    assert!(!host_matches(Some("*.example.com"), Some("xexample.com")));
    assert!(!host_matches(Some("api.example.com"), Some("api.example.co")));
    assert!(host_matches(None, None));
}

#[test]
fn path_matching_trailing_slashes() {
    assert!(path_matches(Some("/"), "/anything"));
    assert!(path_matches(Some("///"), ""));
    assert!(path_matches(Some("/api/"), "/api"));
    assert!(path_matches(Some("/api//"), "/api/x"));
    assert!(!path_matches(Some("/api/"), "/apix"));
    assert!(!path_matches(Some("/api"), "/ap"));
    assert!(path_matches(None, "whatever"));
}

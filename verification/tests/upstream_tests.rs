use std::collections::HashMap;
use torana_core::config::{Config, GlobalConfig, HeaderConfig, RouteConfig, TimeoutConfig, UpstreamConfig};
use torana_core::health::HealthRegistry;
use torana_core::legacy::upstream::LoadBalancer as LegacyLb;
use torana_core::upstream::{build_lb_map, find_lb, gcd, LoadBalancer, UpstreamPool};

fn pool(addr: &str, weight: u32) -> UpstreamPool {
    UpstreamPool {
        addr: addr.to_string(),
        weight,
    }
}

#[test]
fn empty_returns_none() {
    let mut lb = LoadBalancer::new(vec![]);
    assert!(lb.next().is_none());
}

#[test]
fn round_robin_alternates_equal_weights() {
    let mut lb = LoadBalancer::new(vec![pool("a", 50), pool("b", 50)]);
    let picks: Vec<String> = (0..4).map(|_| lb.next().unwrap().addr.clone()).collect();
    assert_eq!(picks, vec!["a", "b", "a", "b"]);
}

#[test]
fn weights_reduce_by_gcd() {
    // 100/100 should expand to a schedule of length 2, not 200
    let lb = LoadBalancer::new(vec![pool("a", 100), pool("b", 100)]);
    assert_eq!(lb.schedule_len(), 2);
}

#[test]
fn respects_weight_ratio() {
    let mut lb = LoadBalancer::new(vec![pool("a", 75), pool("b", 25)]);
    let mut counts = HashMap::new();
    for _ in 0..100 {
        *counts.entry(lb.next().unwrap().addr.clone()).or_insert(0) += 1;
    }
    assert_eq!(counts["a"], 75);
    assert_eq!(counts["b"], 25);
}

#[test]
fn zero_weight_treated_as_one() {
    let mut lb = LoadBalancer::new(vec![pool("a", 0)]);
    assert_eq!(lb.next().unwrap().addr, "a");
}

#[test]
fn schedule_interleaves_by_round() {
    // weights 3:1:2 -> rounds [a b c] [a c] [a]
    let mut lb = LoadBalancer::new(vec![pool("a", 3), pool("b", 1), pool("c", 2)]);
    assert_eq!(lb.schedule_len(), 6);
    let picks: Vec<String> = (0..6).map(|_| lb.next().unwrap().addr.clone()).collect();
    assert_eq!(picks, vec!["a", "b", "c", "a", "c", "a"]);
    // and it wraps around
    assert_eq!(lb.next().unwrap().addr, "a");
}

#[test]
fn gcd_values() {
    assert_eq!(gcd(0, 0), 0);
    assert_eq!(gcd(0, 7), 7);
    assert_eq!(gcd(12, 18), 6);
    assert_eq!(gcd(75, 25), 25);
}

#[test]
fn next_healthy_skips_unhealthy() {
    let mut lb = LoadBalancer::new(vec![pool("a", 50), pool("b", 50)]);
    let mut health = HealthRegistry::new();
    health.set("a", false);
    let picks: Vec<String> = (0..4)
        .map(|_| lb.next_healthy(&health, &[]).unwrap().addr.clone())
        .collect();
    assert!(picks.iter().all(|p| p == "b"), "expected only b, got {:?}", picks);
}

#[test]
fn next_healthy_skips_excluded() {
    let mut lb = LoadBalancer::new(vec![pool("a", 50), pool("b", 50)]);
    let health = HealthRegistry::new();
    let picks: Vec<String> = (0..4)
        .map(|_| lb.next_healthy(&health, &["a".to_string()]).unwrap().addr.clone())
        .collect();
    assert!(picks.iter().all(|p| p == "b"), "expected only b, got {:?}", picks);
}

#[test]
fn next_healthy_fails_open_when_all_excluded() {
    let mut lb = LoadBalancer::new(vec![pool("a", 100)]);
    let health = HealthRegistry::new();
    let result = lb.next_healthy(&health, &["a".to_string()]);
    assert_eq!(result.unwrap().addr, "a");
}

#[test]
fn next_healthy_prefers_healthy_over_excluded_and_fails_open() {
    let mut lb = LoadBalancer::new(vec![pool("a", 1), pool("b", 1)]);
    let mut health = HealthRegistry::new();
    health.set("b", false);
    // "a" is excluded, "b" unhealthy: fall back to a healthy excluded one.
    assert_eq!(lb.next_healthy(&health, &["a".to_string()]).unwrap().addr, "a");
    health.set("a", false);
    // nobody healthy: plain round robin (counter is now 1 -> "b")
    assert_eq!(lb.next_healthy(&health, &[]).unwrap().addr, "b");
    let mut empty = LoadBalancer::new(vec![]);
    assert!(empty.next_healthy(&health, &[]).is_none());
}

#[test]
fn untracked_addr_is_healthy() {
    let registry = HealthRegistry::new();
    assert!(registry.is_healthy("http://127.0.0.1:1"));
}

#[test]
fn set_then_read_reflects_state() {
    let mut registry = HealthRegistry::new();
    registry.set("http://127.0.0.1:1", false);
    assert!(!registry.is_healthy("http://127.0.0.1:1"));
    registry.set("http://127.0.0.1:1", true);
    assert!(registry.is_healthy("http://127.0.0.1:1"));
    assert!(registry.is_healthy("http://127.0.0.1:2"));
}

#[test]
fn legacy_balancer_uses_raw_weights() {
    let mut lb = LegacyLb::new(vec![pool("a", 2), pool("b", 0), pool("c", 1)]);
    let picks: Vec<String> = (0..4).map(|_| lb.next().unwrap().addr.clone()).collect();
    assert_eq!(picks, vec!["a", "c", "a", "a"]);
    let mut zero = LegacyLb::new(vec![pool("a", 0)]);
    assert!(zero.next().is_none());
}

#[test]
fn lb_map_follows_route_order_and_last_name_wins() {
    let mk = |name: &str, addr: &str| RouteConfig {
        name: name.into(),
        host: None,
        path: None,
        when: None,
        upstream: vec![UpstreamConfig { addr: addr.into(), weight: None }],
        mirror: None,
        timeout: TimeoutConfig::default(),
        headers: HeaderConfig::default(),
        health_check: None,
        retries: None,
        plugin: None,
    };
    let config = Config {
        global: GlobalConfig { workers: None, log_format: None, log_level: None, metrics_addr: None },
        listener: vec![],
        route: vec![mk("x", "http://a"), mk("y", "http://b"), mk("x", "http://c")],
    };
    let mut map = build_lb_map(&config);
    assert_eq!(map.len(), 3);
    let i = find_lb(&map, "x").unwrap();
    assert_eq!(i, 2);
    assert_eq!(map[i].1.next().unwrap().addr, "http://c");
    assert!(find_lb(&map, "z").is_none());
}

#[test]
fn capped_weights_bound_the_schedule() {
    let lb = LoadBalancer::new(vec![pool("a", 10000), pool("b", 1)]);
    assert_eq!(lb.schedule_len(), 10001);
}

#[test]
fn a_run_of_picks_repeats_with_the_schedule_period() {
    let mut lb = LoadBalancer::new(vec![pool("a", 30), pool("b", 20), pool("c", 10)]);
    let picks: Vec<String> = (0..12).map(|_| lb.next().unwrap().addr.clone()).collect();
    assert_eq!(&picks[0..6], &picks[6..12]);
    for (addr, share) in [("a", 3), ("b", 2), ("c", 1)] {
        assert_eq!(picks[1..7].iter().filter(|p| p.as_str() == addr).count(), share);
    }
}

use std::time::Duration;
use torana_core::admin::{admin_response, ok_response, AdminPage};
use torana_core::config::{HeaderConfig, TimeoutConfig, UpstreamConfig};
use torana_core::legacy::config::RouteConfig as LegacyRoute;
use torana_core::legacy::handler::{legacy_outcome_reply, plan_legacy_request, LegacyPlan};
use torana_core::legacy::upstream::LoadBalancer as LegacyLb;
use torana_core::plugin::{plugin_engine_settings, EngineSettings, FUEL_PER_CALL};
use torana_core::server::{drain_step, AttemptOutcome, DrainStep, Reply, DRAIN_TIMEOUT_MS};
use torana_core::upstream::UpstreamPool;

fn pool(addr: &str, weight: u32) -> UpstreamPool {
    UpstreamPool { addr: addr.to_string(), weight }
}

fn legacy_route(name: &str, total: Option<&str>) -> LegacyRoute {
    LegacyRoute {
        name: name.to_string(),
        when: None,
        upstream: vec![UpstreamConfig { addr: "http://a:80".to_string(), weight: None }],
        mirror: None,
        timeout: TimeoutConfig { connect: None, first_byte: None, total: total.map(|t| t.to_string()) },
        headers: HeaderConfig::default(),
    }
}

fn forwarded(plan: LegacyPlan) -> (String, Duration) {
    match plan {
        LegacyPlan::Forward { upstream, timeout } => (upstream, timeout),
        LegacyPlan::Reply(r) => panic!("expected a forward, got {:?}", r),
    }
}

#[test]
fn drain_waits_while_connections_remain() {
    assert_eq!(drain_step(3, 0), DrainStep::Wait);
    assert_eq!(drain_step(1, 14_999), DrainStep::Wait);
}

#[test]
fn drain_finishes_when_nothing_is_open() {
    assert_eq!(drain_step(0, 0), DrainStep::Finish { leftover: 0 });
    assert_eq!(drain_step(0, 20_000), DrainStep::Finish { leftover: 0 });
}

#[test]
fn drain_gives_up_after_fifteen_seconds() {
    assert_eq!(DRAIN_TIMEOUT_MS, 15_000);
    assert_eq!(drain_step(2, 15_000), DrainStep::Finish { leftover: 2 });
    assert_eq!(drain_step(7, u64::MAX), DrainStep::Finish { leftover: 7 });
}

#[test]
fn plugin_engine_meters_fuel_with_small_memories() {
    assert_eq!(
        plugin_engine_settings(),
        EngineSettings {
            consume_fuel: true,
            memory_reservation: 16 * 1024 * 1024,
            memory_guard: 64 * 1024,
            memory_growth: 16 * 1024 * 1024,
        }
    );
    assert_eq!(FUEL_PER_CALL, 5_000_000);
}

#[test]
fn legacy_without_routes_answers_no_routes() {
    let mut lbs: Vec<(String, LegacyLb)> = vec![("r".to_string(), LegacyLb::new(vec![pool("http://a:80", 1)]))];
    match plan_legacy_request(&vec![], &mut lbs) {
        LegacyPlan::Reply(r) => {
            assert_eq!(r, Reply::NoRoutes);
            assert_eq!(r.status(), 502);
            assert_eq!(r.message(), "Bad Gateway: no routes configured");
        }
        other => panic!("unexpected {:?}", other),
    }
}

#[test]
fn legacy_without_balancer_answers_no_upstream() {
    let mut lbs: Vec<(String, LegacyLb)> = vec![("other".to_string(), LegacyLb::new(vec![pool("http://a:80", 1)]))];
    match plan_legacy_request(&vec![legacy_route("r", None)], &mut lbs) {
        LegacyPlan::Reply(r) => {
            assert_eq!(r, Reply::NoUpstream);
            assert_eq!(r.message(), "Bad Gateway: no upstreams available");
        }
        other => panic!("unexpected {:?}", other),
    }
}

#[test]
fn legacy_empty_balancer_answers_no_upstream() {
    let mut lbs: Vec<(String, LegacyLb)> = vec![("r".to_string(), LegacyLb::new(vec![pool("http://a:80", 0)]))];
    match plan_legacy_request(&vec![legacy_route("r", None)], &mut lbs) {
        LegacyPlan::Reply(r) => assert_eq!(r, Reply::NoUpstream),
        other => panic!("unexpected {:?}", other),
    }
}

#[test]
fn legacy_uses_first_route_round_robin_with_default_timeout() {
    let mut lbs: Vec<(String, LegacyLb)> = vec![(
        "first".to_string(),
        LegacyLb::new(vec![pool("http://a:80", 1), pool("http://b:80", 1)]),
    )];
    let routes = vec![legacy_route("first", None), legacy_route("second", Some("1s"))];
    let (u1, t1) = forwarded(plan_legacy_request(&routes, &mut lbs));
    let (u2, _) = forwarded(plan_legacy_request(&routes, &mut lbs));
    let (u3, _) = forwarded(plan_legacy_request(&routes, &mut lbs));
    assert_eq!((u1.as_str(), u2.as_str(), u3.as_str()), ("http://a:80", "http://b:80", "http://a:80"));
    assert_eq!(t1, Duration::from_secs(30));
}

#[test]
fn legacy_uses_the_route_total_timeout() {
    let mut lbs: Vec<(String, LegacyLb)> = vec![("r".to_string(), LegacyLb::new(vec![pool("http://a:80", 1)]))];
    let (_, t) = forwarded(plan_legacy_request(&vec![legacy_route("r", Some("250ms"))], &mut lbs));
    assert_eq!(t, Duration::from_millis(250));
    let (_, t) = forwarded(plan_legacy_request(&vec![legacy_route("r", Some("fast"))], &mut lbs));
    assert_eq!(t, Duration::from_secs(30));
}

#[test]
fn legacy_outcomes_map_to_replies() {
    assert_eq!(legacy_outcome_reply(AttemptOutcome::Responded), None);
    assert_eq!(legacy_outcome_reply(AttemptOutcome::Failed { retryable: true }), Some(Reply::BadGateway));
    assert_eq!(legacy_outcome_reply(AttemptOutcome::TimedOut), Some(Reply::GatewayTimeout));
    assert_eq!(Reply::GatewayTimeout.status(), 504);
}

#[test]
fn admin_response_serves_ok_and_metrics() {
    assert_eq!(
        admin_response(AdminPage::Healthz, "ignored"),
        "HTTP/1.1 200 OK\r\nContent-Type: text/plain\r\nContent-Length: 2\r\nConnection: close\r\n\r\nok"
    );
    assert_eq!(
        admin_response(AdminPage::Metrics, "up 1\n"),
        ok_response("text/plain; version=0.0.4", "up 1\n")
    );
}


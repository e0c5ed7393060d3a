use torana_core::server::{listener_modes, log_kind, LogKind};
use std::time::Duration;
use torana_core::acme::{plan, AcmeDirectory, AcmeError};
use torana_core::admin::{admin_page, ok_response, request_path, AdminPage};
use torana_core::config::{
    AutoTlsConfig, Config, GlobalConfig, HeaderConfig, HealthCheckConfig, ListenerConfig,
    MirrorConfig, RouteConfig, TimeoutConfig, UpstreamConfig,
};
use torana_core::health::{probe_passes, probe_status, probe_target, prober_specs, HealthRegistry};
use torana_core::server::{
    body_replayable, listener_mode, metrics_addr, mirror_now, plan_attempts, should_mirror_at,
    AttemptOutcome, EngineState, FlowStep, ListenerMode, NextStep, Phase, Reply, RequestFlow,
    RetryState,
};
use torana_core::plugin::Verdict;
use torana_core::text::decimal_string;
use torana_core::tls::cert_fingerprint;
use torana_core::validate::{ConfigError, ConfigWarning};

fn route(name: &str, path: Option<&str>, upstreams: &[&str]) -> RouteConfig {
    RouteConfig {
        name: name.to_string(),
        host: None,
        path: path.map(|p| p.to_string()),
        when: None,
        upstream: upstreams
            .iter()
            .map(|a| UpstreamConfig { addr: a.to_string(), weight: None })
            .collect(),
        mirror: None,
        timeout: TimeoutConfig::default(),
        headers: HeaderConfig::default(),
        health_check: None,
        retries: None,
        plugin: None,
    }
}

fn config(routes: Vec<RouteConfig>) -> Config {
    Config {
        global: GlobalConfig { workers: None, log_format: None, log_level: None, metrics_addr: None },
        listener: vec![ListenerConfig {
            addr: "127.0.0.1:8080".into(),
            protocol: "http".into(),
            tls_cert: None,
            tls_key: None,
            tls_client_ca: None,
            acme: None,
        }],
        route: routes,
    }
}

#[test]
fn probe_status_reads_the_status_word() {
    assert_eq!(probe_status("HTTP/1.1 200 OK\r\n\r\n"), 200);
    assert_eq!(probe_status("  HTTP/1.1\t503 Service Unavailable"), 503);
    assert_eq!(probe_status("HTTP/1.1 abc"), 0);
    assert_eq!(probe_status("HTTP/1.1"), 0);
    assert_eq!(probe_status(""), 0);
    assert_eq!(probe_status("HTTP/1.1 +204 No Content"), 204);
    assert_eq!(probe_status("HTTP/1.1 70000 Huge"), 0);
    assert!(probe_passes("HTTP/1.1 404 Not Found"));
    assert!(probe_passes("HTTP/1.1 499 Whatever"));
    assert!(!probe_passes("HTTP/1.1 500 Internal Server Error"));
    assert!(!probe_passes("garbage"));
}

#[test]
fn probe_target_builds_the_request() {
    let (host, port, req) = probe_target("http://127.0.0.1:1", "/health").unwrap();
    assert_eq!(host, "127.0.0.1");
    assert_eq!(port, 1);
    assert_eq!(req, "GET /health HTTP/1.1\r\nHost: 127.0.0.1\r\nConnection: close\r\n\r\n");
    assert!(probe_target("http://", "/").is_none());
}

#[test]
fn probers_follow_health_checks_with_defaults() {
    let mut a = route("a", None, &["http://a1", "http://a2"]);
    a.health_check = Some(HealthCheckConfig { path: None, interval: None, timeout: Some("500ms".into()) });
    let b = route("b", None, &["http://b1"]);
    let mut c = route("c", None, &["http://c1"]);
    c.health_check = Some(HealthCheckConfig { path: Some("/hz".into()), interval: Some("1m".into()), timeout: None });
    let specs = prober_specs(&config(vec![a, b, c]));
    let got: Vec<(String, String, Duration, Duration)> = specs
        .into_iter()
        .map(|s| (s.addr, s.path, s.interval, s.timeout))
        .collect();
    assert_eq!(
        got,
        vec![
            ("http://a1".into(), "/".into(), Duration::from_secs(10), Duration::from_millis(500)),
            ("http://a2".into(), "/".into(), Duration::from_secs(10), Duration::from_millis(500)),
            ("http://c1".into(), "/hz".into(), Duration::from_secs(60), Duration::from_secs(2)),
        ]
    );
}

#[test]
fn health_registry_read_after_set() {
    let mut registry = HealthRegistry::new();
    registry.set("http://x", false);
    registry.set("http://y", true);
    assert!(!registry.is_healthy("http://x"));
    assert!(registry.is_healthy("http://y"));
    assert!(registry.is_healthy("http://never-set"));
}

#[test]
fn admin_endpoint_pages_and_framing() {
    assert_eq!(request_path("GET /healthz HTTP/1.1\r\nHost: x\r\n\r\n"), "/healthz");
    assert_eq!(request_path("GET\r\nX: /healthz y\r\n"), "/");
    assert_eq!(request_path(""), "/");
    assert_eq!(admin_page("GET /healthz/deep HTTP/1.1\r\n"), AdminPage::Healthz);
    assert_eq!(admin_page("GET /metrics HTTP/1.1\r\n"), AdminPage::Metrics);
    assert_eq!(admin_page("garbage"), AdminPage::Metrics);
    assert_eq!(
        ok_response("text/plain", "ok"),
        "HTTP/1.1 200 OK\r\nContent-Type: text/plain\r\nContent-Length: 2\r\nConnection: close\r\n\r\nok"
    );
    assert!(ok_response("text/plain", "é").contains("Content-Length: 2\r\n"));
}

#[test]
fn decimal_formatting() {
    assert_eq!(decimal_string(0), "0");
    assert_eq!(decimal_string(9), "9");
    assert_eq!(decimal_string(10), "10");
    assert_eq!(decimal_string(65535), "65535");
    assert_eq!(decimal_string(u64::MAX), u64::MAX.to_string());
}

#[test]
fn acme_plan_prefers_directory_url_and_adds_mailto() {
    let p = plan(
        vec!["example.com".into()],
        vec!["ops@example.com".into()],
        "./acme-cache".into(),
        Some("https://pebble:14000/dir".into()),
        true,
        None,
    )
    .unwrap();
    assert_eq!(p.contacts, vec!["mailto:ops@example.com".to_string()]);
    assert_eq!(p.directory, AcmeDirectory::Url("https://pebble:14000/dir".into()));
    let p = plan(vec!["a.example".into()], vec![], "c".into(), None, true, None).unwrap();
    assert_eq!(p.directory, AcmeDirectory::LetsEncrypt { production: false });
    let p = plan(vec!["a.example".into()], vec![], "c".into(), None, false, None).unwrap();
    assert_eq!(p.directory, AcmeDirectory::LetsEncrypt { production: true });
    assert_eq!(plan(vec![], vec![], "c".into(), None, false, None).unwrap_err(), AcmeError::NoDomains);
    assert_eq!(AcmeError::NoDomains.message(), "ACME requires at least one domain");
    let cfg = AutoTlsConfig {
        domains: vec!["x.example".into()],
        contact_emails: None,
        cache_dir: None,
        directory_url: None,
        staging: None,
        ca_cert: None,
    };
    let p = cfg.plan().unwrap();
    assert_eq!(p.cache_dir, "./acme-cache");
    assert!(p.contacts.is_empty());
    assert_eq!(p.directory, AcmeDirectory::LetsEncrypt { production: true });
}

#[test]
fn replies_carry_fixed_statuses_and_texts() {
    assert_eq!(Reply::NoRoute.status(), 404);
    assert_eq!(Reply::NoRoute.message(), "Not Found: no route matched");
    assert_eq!(Reply::NoUpstream.status(), 502);
    assert_eq!(Reply::NoUpstream.message(), "Bad Gateway: no upstreams available");
    assert_eq!(Reply::BadGateway.status(), 502);
    assert_eq!(Reply::GatewayTimeout.status(), 504);
    assert_eq!(Reply::GatewayTimeout.message(), "Gateway Timeout");
    assert_eq!(Reply::Denied(451).status(), 451);
    assert_eq!(Reply::Denied(42).status(), 403);
    assert_eq!(Reply::NoRoutes.message(), "Bad Gateway: no routes configured");
}

#[test]
fn retries_follow_the_plan() {
    assert!(body_replayable("GET", Some(0)));
    assert!(!body_replayable("GET", None));
    assert!(!body_replayable("POST", Some(0)));
    let plan = plan_attempts(3, true);
    assert!(plan.can_retry);
    let mut state = RetryState::new(plan);
    assert_eq!(state.record("a".into(), AttemptOutcome::Failed { retryable: true }), NextStep::Retry);
    assert_eq!(state.record("b".into(), AttemptOutcome::Failed { retryable: true }), NextStep::Retry);
    assert_eq!(state.record("c".into(), AttemptOutcome::Failed { retryable: true }), NextStep::BadGateway);
    assert_eq!(state.tried, vec!["a".to_string(), "b".to_string(), "c".to_string()]);
    let plan = plan_attempts(3, false);
    assert_eq!(plan.attempts, 1);
    let mut state = RetryState::new(plan);
    assert_eq!(state.record("a".into(), AttemptOutcome::Failed { retryable: true }), NextStep::BadGateway);
    let mut state = RetryState::new(plan_attempts(2, true));
    assert_eq!(state.record("a".into(), AttemptOutcome::Failed { retryable: false }), NextStep::BadGateway);
    let mut state = RetryState::new(plan_attempts(2, true));
    assert_eq!(state.record("a".into(), AttemptOutcome::TimedOut), NextStep::GatewayTimeout);
    assert!(state.tried.is_empty());
}

#[test]
fn mirroring_never_duplicates_a_body() {
    let mut r = route("m", None, &["http://a"]);
    assert!(!mirror_now(&r, true));
    r.mirror = Some(MirrorConfig { addr: "http://shadow".into(), rate: None });
    assert!(mirror_now(&r, true));
    assert!(!mirror_now(&r, false));
    r.mirror = Some(MirrorConfig { addr: "http://shadow".into(), rate: Some(0) });
    assert!(!mirror_now(&r, true));
    assert!(should_mirror_at(10, 1_000_000_205));
    assert!(!should_mirror_at(10, 310));
}

#[test]
fn engine_routes_picks_and_reloads() {
    let cfg = config(vec![
        route("api", Some("/api"), &["http://a1", "http://a2"]),
        route("web", None, &["http://w1"]),
    ]);
    let mut engine = EngineState::new(cfg, vec![]);
    let p = engine.plan_request(Some("x"), "/api/v1", "GET", Some(0)).unwrap();
    assert_eq!(p.route, 0);
    assert!(p.replayable);
    assert_eq!(p.attempts.attempts, 2);
    let p = engine.plan_request(None, "/other", "POST", None).unwrap();
    assert_eq!(p.route, 1);
    assert_eq!(p.attempts.attempts, 1);

    assert_eq!(engine.pick_upstream("api", &[]), Some("http://a1".to_string()));
    assert_eq!(engine.pick_upstream("api", &[]), Some("http://a2".to_string()));
    engine.set_health("http://a1", false);
    assert_eq!(engine.pick_upstream("api", &[]), Some("http://a2".to_string()));
    assert_eq!(engine.pick_upstream("nope", &[]), None);

    let mut bad = config(vec![]);
    bad.listener.clear();
    assert!(engine.reload(bad, vec![]).is_err());
    assert_eq!(engine.config().route.len(), 2);
    assert!(!engine.health().is_healthy("http://a1"));

    let fresh = config(vec![route("only", None, &["http://o1"])]);
    engine.reload(fresh, vec![]).unwrap();
    assert_eq!(engine.config().route.len(), 1);
    assert_eq!(engine.pick_upstream("only", &[]), Some("http://o1".to_string()));
    assert_eq!(engine.pick_upstream("api", &[]), None);
    assert!(engine.plugin("p.wasm").is_none());
}

#[test]
fn listener_modes_and_metrics_address() {
    let mut l = ListenerConfig {
        addr: "127.0.0.1:8443".into(),
        protocol: "https".into(),
        tls_cert: Some("c.pem".into()),
        tls_key: Some("k.pem".into()),
        tls_client_ca: None,
        acme: None,
    };
    assert_eq!(
        listener_mode(&l),
        ListenerMode::Tls { cert: "c.pem".into(), key: "k.pem".into(), client_ca: None }
    );
    l.protocol = "http".into();
    l.tls_cert = None;
    l.tls_key = None;
    assert_eq!(listener_mode(&l), ListenerMode::Plain);
    let mut c = config(vec![route("r", None, &["http://a"])]);
    assert_eq!(metrics_addr(&c), "127.0.0.1:9090");
    c.global.metrics_addr = Some("0.0.0.0:9100".into());
    assert_eq!(metrics_addr(&c), "0.0.0.0:9100");
}

#[test]
fn config_warnings_name_ignored_settings() {
    let mut r = route("r", None, &["http://a"]);
    r.when = Some("true".into());
    r.timeout.connect = Some("1s".into());
    let w = config(vec![r]).warnings();
    assert_eq!(
        w,
        vec![
            ConfigWarning::WhenIgnored { route: "r".into() },
            ConfigWarning::TimeoutPartsIgnored { route: "r".into() },
        ]
    );
    assert_eq!(
        w[1].message(),
        "Route 'r': only timeout.total is enforced; connect/first_byte are ignored"
    );
}

#[test]
fn fingerprint_is_hex_sha256() {
    let fp = cert_fingerprint(b"abc");
    assert_eq!(fp, "ba7816bf8f01cfea414140de5dae2223b00361a396177a9cb410ff61f20015ad");
}

#[test]
fn request_flow_runs_filter_then_attempts() {
    let (mut flow, step) = RequestFlow::start(plan_attempts(2, true), true);
    assert_eq!(step, FlowStep::Evaluate);
    assert_eq!(flow.on_verdict(Verdict::Allow), FlowStep::Pick);
    assert_eq!(
        flow.on_pick(Some("http://a".into())),
        FlowStep::Send { upstream: "http://a".into(), fresh_body: true }
    );
    assert_eq!(flow.on_outcome(AttemptOutcome::Failed { retryable: true }), FlowStep::Pick);
    assert_eq!(flow.retry.tried, vec!["http://a".to_string()]);
    assert_eq!(
        flow.on_pick(Some("http://b".into())),
        FlowStep::Send { upstream: "http://b".into(), fresh_body: true }
    );
    assert_eq!(flow.on_outcome(AttemptOutcome::Failed { retryable: true }), FlowStep::Answer(Reply::BadGateway));
    assert_eq!(flow.phase, Phase::Finished);

    let (mut flow, step) = RequestFlow::start(plan_attempts(3, false), true);
    assert_eq!(step, FlowStep::Evaluate);
    assert_eq!(flow.on_verdict(Verdict::Deny(451)), FlowStep::Answer(Reply::Denied(451)));

    let (mut flow, step) = RequestFlow::start(plan_attempts(3, false), false);
    assert_eq!(step, FlowStep::Pick);
    assert_eq!(
        flow.on_pick(Some("http://a".into())),
        FlowStep::Send { upstream: "http://a".into(), fresh_body: false }
    );
    assert_eq!(flow.on_outcome(AttemptOutcome::Responded), FlowStep::Forward);

    let (mut flow, _) = RequestFlow::start(plan_attempts(1, true), false);
    assert_eq!(flow.on_pick(None), FlowStep::Answer(Reply::NoUpstream));
    let (mut flow, _) = RequestFlow::start(plan_attempts(2, true), false);
    flow.on_pick(Some("http://slow".into()));
    assert_eq!(flow.on_outcome(AttemptOutcome::TimedOut), FlowStep::Answer(Reply::GatewayTimeout));
}

#[test]
fn mirror_follows_replayability_of_the_request() {
    let mut r = route("default", None, &["http://127.0.0.1:9000"]);
    r.mirror = Some(MirrorConfig { addr: "http://127.0.0.1:9001".into(), rate: None });
    let cfg = config(vec![r]);
    let engine = EngineState::new(cfg, vec![]);
    let get = engine.plan_request(None, "/", "GET", Some(0)).unwrap();
    assert!(mirror_now(&engine.config().route[get.route], get.replayable));
    let post = engine.plan_request(None, "/", "POST", None).unwrap();
    assert!(!mirror_now(&engine.config().route[post.route], post.replayable));
}

#[test]
fn dead_and_hanging_upstreams_answer_502_and_504() {
    let (mut flow, _) = RequestFlow::start(plan_attempts(1, true), false);
    flow.on_pick(Some("http://127.0.0.1:1".into()));
    let step = flow.on_outcome(AttemptOutcome::Failed { retryable: true });
    assert_eq!(step, FlowStep::Answer(Reply::BadGateway));
    assert_eq!(Reply::BadGateway.status(), 502);
    let (mut flow, _) = RequestFlow::start(plan_attempts(1, true), false);
    flow.on_pick(Some("http://127.0.0.1:2".into()));
    let step = flow.on_outcome(AttemptOutcome::TimedOut);
    assert_eq!(step, FlowStep::Answer(Reply::GatewayTimeout));
    assert_eq!(Reply::GatewayTimeout.status(), 504);
}

#[test]
fn plugin_outcomes_drive_the_flow() {
    let (mut flow, _) = RequestFlow::start(plan_attempts(1, true), true);
    assert_eq!(flow.on_plugin_outcome(Some(0)), FlowStep::Pick);
    let (mut flow, _) = RequestFlow::start(plan_attempts(1, true), true);
    assert_eq!(flow.on_plugin_outcome(Some(451)), FlowStep::Answer(Reply::Denied(451)));
    let (mut flow, _) = RequestFlow::start(plan_attempts(1, true), true);
    assert_eq!(flow.on_plugin_outcome(Some(7)), FlowStep::Answer(Reply::Denied(403)));
    let (mut flow, _) = RequestFlow::start(plan_attempts(1, true), true);
    assert_eq!(flow.on_plugin_outcome(None), FlowStep::Answer(Reply::Denied(500)));
}

#[test]
fn log_kind_is_json_only_for_json() {
    assert_eq!(log_kind("json"), LogKind::Json);
    assert_eq!(log_kind("text"), LogKind::Text);
    assert_eq!(log_kind("JSON"), LogKind::Text);
}

#[test]
fn listener_modes_follow_validation() {
    let mut c = config(vec![route("r", None, &["http://a"])]);
    assert_eq!(listener_modes(&c).unwrap(), vec![ListenerMode::Plain]);
    c.listener[0].protocol = "https".into();
    assert_eq!(
        listener_modes(&c).unwrap_err(),
        ConfigError::HttpsWithoutCert { addr: "127.0.0.1:8080".into() }
    );
}

#[test]
fn mirror_leaves_the_request_plan_unchanged() {
    let mut mirrored = route("api", Some("/api"), &["http://a:80", "http://b:80"]);
    mirrored.mirror = Some(MirrorConfig { addr: "http://m:80".into(), rate: Some(100) });
    let plain = route("api", Some("/api"), &["http://a:80", "http://b:80"]);
    let with = EngineState::new(config(vec![mirrored]), vec![]);
    let without = EngineState::new(config(vec![plain]), vec![]);
    for (path, method, hint) in [("/api/x", "GET", Some(0)), ("/api", "POST", None), ("/other", "GET", Some(0))] {
        assert_eq!(with.plan_request(None, path, method, hint), without.plan_request(None, path, method, hint));
    }
}

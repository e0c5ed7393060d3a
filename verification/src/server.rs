//! The proxy engine's decisions: logging settings, route and upstream
//! choice per request, retries, mirroring, and configuration reload.
use vstd::prelude::*;
use tracing_subscriber::layer::SubscriberExt;
use tracing_subscriber::util::SubscriberInitExt;
use std::sync::Arc;
use std::time::{Duration, SystemTime, SystemTimeError};
use crate::config::{duration_result, spec_duration_from_secs, Config, ListenerConfig, MirrorConfig, RouteConfig};
use crate::health::{health_of, HealthRegistry};
use crate::plugin::{spec_verdict, verdict_of, Plugin, Verdict};
use crate::routing::{first_matching_route, lemma_first_match_same, route_index};
use crate::text::{opt_str_view, opt_view, str_eq};
use crate::upstream::{
    build_lb_map, find_lb, lb_map_built_from, next_counter, route_pools, spec_next_healthy, strings_view,
    LoadBalancer,
};
use crate::validate::{
    config_error, durations_in_range, first_listener_error, lemma_first_listener_error_extends, listener_check,
    listener_error, route_durations_in_range, BuildFeatures, ConfigError,
};

verus! {

#[verifier::external_type_specification]
#[verifier::external_body]
pub struct ExSystemTime(SystemTime);

#[verifier::external_type_specification]
#[verifier::external_body]
pub struct ExSystemTimeError(SystemTimeError);

#[verifier::external_type_specification]
#[verifier::external_body]
pub struct ExTryInitError(tracing_subscriber::util::TryInitError);

/// The full standalone process: binds every configured listener, runs the
/// metrics/healthz endpoint, reloads on SIGHUP, and drains connections
/// gracefully on SIGTERM/SIGINT.
pub struct Server {
    config: Config,
}

impl Server {
    pub closed spec fn spec_config(&self) -> Config {
        self.config
    }

    pub fn new(config: Config) -> (s: Self)
        ensures
            s.spec_config() == config,
    {
        Server { config }
    }

    /// The configuration the server runs with.
    pub fn config(&self) -> (c: &Config)
        ensures
            *c == self.spec_config(),
    {
        &self.config
    }
}

/// How long shutdown waits for in-flight connections, in milliseconds.
pub const DRAIN_TIMEOUT_MS: u64 = 15000;

/// What shutdown does next while draining connections.
#[derive(Debug, Clone, Copy, PartialEq, Eq, Structural)]
pub enum DrainStep {
    /// Connections are still open and the deadline has not passed: wait a
    /// little and look again.
    Wait,
    /// Stop draining; `leftover` connections were still open.
    Finish { leftover: usize },
}

/// One decision of the shutdown drain, given how many connections are
/// still open and how long the drain has run: finish once none are left
/// or the drain timeout has passed, else wait.
pub fn drain_step(open: usize, elapsed_ms: u64) -> (s: DrainStep)
    ensures
        s == (if open == 0 || elapsed_ms >= DRAIN_TIMEOUT_MS {
            DrainStep::Finish { leftover: open }
        } else {
            DrainStep::Wait
        }),
{
    if open == 0 || elapsed_ms >= DRAIN_TIMEOUT_MS {
        DrainStep::Finish { leftover: open }
    } else {
        DrainStep::Wait
    }
}

/// How a listener terminates connections.
#[derive(Debug, Clone, PartialEq, Eq)]
pub enum ListenerMode {
    /// TLS with certificates issued and renewed over ACME.
    Acme,
    /// TLS with a static certificate and key; client certificates are
    /// required when `client_ca` is set.
    Tls { cert: String, key: String, client_ca: Option<String> },
    /// Plain HTTP.
    Plain,
}

/// An ACME block wins; otherwise `https` means a static certificate.
pub open spec fn spec_listener_mode(l: ListenerConfig) -> ListenerMode {
    if l.acme is Some {
        ListenerMode::Acme
    } else if l.protocol@ == "https"@ {
        ListenerMode::Tls { cert: l.tls_cert->Some_0, key: l.tls_key->Some_0, client_ca: l.tls_client_ca }
    } else {
        ListenerMode::Plain
    }
}

/// How `l` is served. A listener that passed validation has a certificate
/// and key whenever it needs them.
pub fn listener_mode(l: &ListenerConfig) -> (m: ListenerMode)
    requires
        listener_error(*l, BuildFeatures { acme: true, plugins: true }) is None,
    ensures
        m == spec_listener_mode(*l),
{
    proof {
        reveal_strlit("http");
        reveal_strlit("https");
    }
    if l.acme.is_some() {
        ListenerMode::Acme
    } else if str_eq(l.protocol.as_str(), "https") {
        assert("http"@.len() == 4);
        assert("https"@.len() == 5);
        assert(l.protocol@ != "http"@);
        match &l.tls_cert {
            Some(cert) => match &l.tls_key {
                Some(key) => ListenerMode::Tls {
                    cert: cert.clone(),
                    key: key.clone(),
                    client_ca: l.tls_client_ca.clone(),
                },
                None => ListenerMode::Plain,
            },
            None => ListenerMode::Plain,
        }
    } else {
        ListenerMode::Plain
    }
}

pub open spec fn spec_listener_modes(ls: Seq<ListenerConfig>) -> Seq<ListenerMode> {
    ls.map_values(|l: ListenerConfig| spec_listener_mode(l))
}

/// How each listener of `config` is served, in order; the first listener
/// error instead when a listener does not validate.
pub fn listener_modes(config: &Config) -> (r: Result<Vec<ListenerMode>, ConfigError>)
    ensures
        match first_listener_error(config.listener@, BuildFeatures { acme: true, plugins: true }) {
            Some(e) => r == Err::<Vec<ListenerMode>, ConfigError>(e),
            None => r matches Ok(v) && v@ == spec_listener_modes(config.listener@),
        },
{
    let f = BuildFeatures::enabled();
    let mut modes: Vec<ListenerMode> = Vec::new();
    let mut i: usize = 0;
    while i < config.listener.len()
        invariant
            i <= config.listener@.len(),
            f == (BuildFeatures { acme: true, plugins: true }),
            first_listener_error(config.listener@.take(i as int), f) is None,
            modes@ == spec_listener_modes(config.listener@.take(i as int)),
        decreases config.listener@.len() - i,
    {
        let l = &config.listener[i];
        let c = listener_check(l, f);
        assert(config.listener@.take(i + 1).drop_last() =~= config.listener@.take(i as int));
        match c {
            Err(e) => {
                proof {
                    lemma_first_listener_error_extends(config.listener@.take(i + 1), config.listener@, f);
                }
                return Err(e);
            },
            Ok(()) => {},
        }
        let m = listener_mode(l);
        modes.push(m);
        assert(modes@ =~= spec_listener_modes(config.listener@.take(i + 1)));
        i = i + 1;
    }
    assert(config.listener@.take(i as int) =~= config.listener@);
    Ok(modes)
}

/// Where the metrics and health endpoint listens: `127.0.0.1:9090` unless
/// configured.
pub fn metrics_addr(config: &Config) -> (a: &str)
    ensures
        a@ == match config.global.metrics_addr {
            Some(m) => m@,
            None => "127.0.0.1:9090"@,
        },
{
    match &config.global.metrics_addr {
        Some(m) => m.as_str(),
        None => "127.0.0.1:9090",
    }
}

// ---------------------------------------------------------------------
// Logging

/// Why the global log subscriber could not be installed.
#[derive(Debug, Clone, Copy, PartialEq, Eq, Structural)]
pub enum LoggingError {
    /// A global subscriber was already installed.
    AlreadyInitialized,
}

/// `log_format` and `log_level` of a configuration, with their defaults
/// ("json" and "info").
pub open spec fn spec_logging_settings(c: Config) -> (Seq<char>, Seq<char>) {
    (
        match c.global.log_format {
            Some(f) => f@,
            None => "json"@,
        },
        match c.global.log_level {
            Some(l) => l@,
            None => "info"@,
        },
    )
}

/// Format and level to log with.
pub fn logging_settings(config: &Config) -> (r: (&str, &str))
    ensures
        (r.0@, r.1@) == spec_logging_settings(*config),
{
    let format = match &config.global.log_format {
        Some(f) => f.as_str(),
        None => "json",
    };
    let level = match &config.global.log_level {
        Some(l) => l.as_str(),
        None => "info",
    };
    (format, level)
}

/// How log lines are written.
#[derive(Debug, Clone, Copy, PartialEq, Eq, Structural)]
pub enum LogKind {
    /// One JSON object per line.
    Json,
    /// Human-readable lines.
    Text,
}

/// JSON exactly when `format` is "json"; any other format means text.
pub open spec fn spec_log_kind(format: Seq<char>) -> LogKind {
    if format == "json"@ {
        LogKind::Json
    } else {
        LogKind::Text
    }
}

/// The kind of log lines `format` asks for.
pub fn log_kind(format: &str) -> (k: LogKind)
    ensures
        k == spec_log_kind(format@),
{
    if str_eq(format, "json") {
        LogKind::Json
    } else {
        LogKind::Text
    }
}

/// The logging a successful initialization installed.
#[derive(Debug, Clone, PartialEq, Eq)]
pub struct LogSetup {
    /// How log lines are written.
    pub kind: LogKind,
    /// The `EnvFilter` directive the subscriber filters by.
    pub level: String,
}

/// Installs a global subscriber writing JSON lines, filtered by `level`
/// (`tracing_subscriber::registry().with(EnvFilter::new(level))
/// .with(fmt::layer().json()).try_init()`); fails when a global subscriber
/// is already set. On success it reports what it installed.
#[verifier::external_body]
fn install_json_subscriber(level: &str) -> (r: Result<LogSetup, tracing_subscriber::util::TryInitError>)
    ensures
        r matches Ok(s) ==> s.kind == LogKind::Json && s.level@ == level@,
{
    let installed = tracing_subscriber::registry()
        .with(tracing_subscriber::EnvFilter::new(level))
        .with(tracing_subscriber::fmt::layer().json())
        .try_init();
    match installed {
        Ok(()) => Ok(LogSetup { kind: LogKind::Json, level: level.to_string() }),
        Err(e) => Err(e),
    }
}

/// Installs a global subscriber writing human-readable lines, filtered by
/// `level`; fails when a global subscriber is already set. On success it
/// reports what it installed.
#[verifier::external_body]
fn install_text_subscriber(level: &str) -> (r: Result<LogSetup, tracing_subscriber::util::TryInitError>)
    ensures
        r matches Ok(s) ==> s.kind == LogKind::Text && s.level@ == level@,
{
    let installed = tracing_subscriber::registry()
        .with(tracing_subscriber::EnvFilter::new(level))
        .with(tracing_subscriber::fmt::layer())
        .try_init();
    match installed {
        Ok(()) => Ok(LogSetup { kind: LogKind::Text, level: level.to_string() }),
        Err(e) => Err(e),
    }
}

/// Installs global logging: the subscriber for `log_kind(format)` (JSON
/// lines exactly when `format` is "json"), filtered by `level`.
pub fn init_logging(format: &str, level: &str) -> (r: Result<LogSetup, LoggingError>)
    ensures
        r matches Ok(s) ==> s.kind == spec_log_kind(format@) && s.level@ == level@,
        r matches Err(e) ==> e == LoggingError::AlreadyInitialized,
{
    let installed = match log_kind(format) {
        LogKind::Json => install_json_subscriber(level),
        LogKind::Text => install_text_subscriber(level),
    };
    match installed {
        Ok(s) => Ok(s),
        Err(_) => Err(LoggingError::AlreadyInitialized),
    }
}

/// Initializes global logging from config: the format and level that
/// `logging_settings` gives (JSON and "info" unless set).
pub fn init_logging_from_config(config: &Config) -> (r: Result<LogSetup, LoggingError>)
    ensures
        r matches Ok(s) ==> s.kind == spec_log_kind(spec_logging_settings(*config).0)
            && s.level@ == spec_logging_settings(*config).1,
        r matches Err(e) ==> e == LoggingError::AlreadyInitialized,
{
    let (format, level) = logging_settings(config);
    init_logging(format, level)
}

// ---------------------------------------------------------------------
// Per-request decisions

/// GET, HEAD and OPTIONS carry no meaningful body.
pub open spec fn replayable_method(m: Seq<char>) -> bool {
    m == "GET"@ || m == "HEAD"@ || m == "OPTIONS"@
}

/// A request can be sent again (retried or mirrored) only when its method
/// carries no meaningful body and the client sent none.
pub open spec fn spec_body_replayable(method: Seq<char>, body_size_hint: Option<u64>) -> bool {
    replayable_method(method) && body_size_hint == Some(0u64)
}

pub fn body_replayable(method: &str, body_size_hint: Option<u64>) -> (r: bool)
    ensures
        r == spec_body_replayable(method@, body_size_hint),
{
    (str_eq(method, "GET") || str_eq(method, "HEAD") || str_eq(method, "OPTIONS")) && body_size_hint
        == Some(0u64)
}

/// How many upstream attempts one request may make.
#[derive(Debug, Clone, Copy, PartialEq, Eq, Structural)]
pub struct AttemptPlan {
    /// Failed connects may move on to another upstream.
    pub can_retry: bool,
    /// Upper bound on attempts.
    pub attempts: u32,
}

pub open spec fn spec_plan_attempts(max_attempts: u32, replayable: bool) -> AttemptPlan {
    let can_retry = max_attempts > 1 && replayable;
    AttemptPlan { can_retry, attempts: if can_retry { max_attempts } else { 1 } }
}

/// Retries need a body that can be rebuilt from scratch; otherwise the
/// request gets exactly one attempt.
pub fn plan_attempts(max_attempts: u32, replayable: bool) -> (p: AttemptPlan)
    ensures
        p == spec_plan_attempts(max_attempts, replayable),
        plan_ok(p),
{
    let can_retry = max_attempts > 1 && replayable;
    AttemptPlan { can_retry, attempts: if can_retry { max_attempts } else { 1 } }
}

/// What one upstream attempt came to.
#[derive(Debug, Clone, Copy, PartialEq, Eq, Structural)]
pub enum AttemptOutcome {
    /// The upstream returned response headers.
    Responded,
    /// The request failed; `retryable` when nothing reached the upstream.
    Failed { retryable: bool },
    /// The route's total timeout expired.
    TimedOut,
}

/// What the proxy does after an attempt.
#[derive(Debug, Clone, Copy, PartialEq, Eq, Structural)]
pub enum NextStep {
    /// Forward the upstream's response.
    Respond,
    /// Try another upstream.
    Retry,
    /// Answer 502 Bad Gateway.
    BadGateway,
    /// Answer 504 Gateway Timeout.
    GatewayTimeout,
}

/// Attempts made so far for one request and the upstreams that failed.
pub struct RetryState {
    pub plan: AttemptPlan,
    pub made: u32,
    pub tried: Vec<String>,
}

pub open spec fn spec_next_step(plan: AttemptPlan, made: u32, outcome: AttemptOutcome) -> NextStep {
    match outcome {
        AttemptOutcome::Responded => NextStep::Respond,
        AttemptOutcome::TimedOut => NextStep::GatewayTimeout,
        AttemptOutcome::Failed { retryable } => if plan.can_retry && retryable && made + 1 < plan.attempts {
            NextStep::Retry
        } else {
            NextStep::BadGateway
        },
    }
}

impl RetryState {
    pub fn new(plan: AttemptPlan) -> (s: Self)
        ensures
            s.plan == plan,
            s.made == 0,
            s.tried@.len() == 0,
    {
        RetryState { plan, made: 0, tried: Vec::new() }
    }

    /// Record the outcome of an attempt against `upstream` and decide what
    /// comes next. A failed upstream is remembered so the next pick avoids
    /// it.
    pub fn record(&mut self, upstream: String, outcome: AttemptOutcome) -> (step: NextStep)
        requires
            old(self).made < old(self).plan.attempts,
        ensures
            step == spec_next_step(old(self).plan, old(self).made, outcome),
            final(self).plan == old(self).plan,
            final(self).made == old(self).made + 1,
            final(self).tried@ == if outcome is Failed {
                old(self).tried@.push(upstream)
            } else {
                old(self).tried@
            },
    {
        let made = self.made;
        self.made = made + 1;
        match outcome {
            AttemptOutcome::Responded => NextStep::Respond,
            AttemptOutcome::TimedOut => NextStep::GatewayTimeout,
            AttemptOutcome::Failed { retryable } => {
                self.tried.push(upstream);
                if self.plan.can_retry && retryable && made + 1 < self.plan.attempts {
                    NextStep::Retry
                } else {
                    NextStep::BadGateway
                }
            },
        }
    }
}

/// A request whose body cannot be replayed gets one attempt and is never
/// retried, whatever the route allows; a retry only ever follows a
/// retryable failure within the attempt budget, which never exceeds the
/// route's `max_attempts`.
pub proof fn law_retries_only_replayable(max_attempts: u32, replayable: bool, made: u32, outcome: AttemptOutcome)
    ensures
        !replayable ==> spec_plan_attempts(max_attempts, replayable).attempts == 1,
        spec_plan_attempts(max_attempts, replayable).attempts <= if max_attempts >= 1 { max_attempts } else { 1 },
        spec_next_step(spec_plan_attempts(max_attempts, replayable), made, outcome) == NextStep::Retry ==> {
            &&& replayable
            &&& outcome == AttemptOutcome::Failed { retryable: true }
            &&& made + 1 < max_attempts
        },
{
}

/// Mirror sampling for `mirror.rate` (0-100) from a clock's sub-second
/// nanoseconds: every request at 100 or more, none at 0, otherwise when the
/// nanoseconds modulo 100 fall below the rate.
pub open spec fn spec_should_mirror_at(rate: u32, nanos: u32) -> bool {
    if rate >= 100 {
        true
    } else if rate == 0 {
        false
    } else {
        nanos % 100 < rate
    }
}

pub fn should_mirror_at(rate: u32, nanos: u32) -> (r: bool)
    ensures
        r == spec_should_mirror_at(rate, nanos),
{
    if rate >= 100 {
        return true;
    }
    if rate == 0 {
        return false;
    }
    (nanos % 100) < rate
}

/// `SystemTime::now`.
#[verifier::external_body]
fn system_now() -> SystemTime {
    SystemTime::now()
}

/// `SystemTime::duration_since(UNIX_EPOCH)`.
#[verifier::external_body]
fn since_unix_epoch(t: SystemTime) -> Result<Duration, SystemTimeError> {
    t.duration_since(std::time::UNIX_EPOCH)
}

/// `Duration::subsec_nanos`, which is always below one second.
#[verifier::external_body]
fn subsec_nanos(d: &Duration) -> (n: u32)
    ensures
        n < 1_000_000_000,
{
    d.subsec_nanos()
}

/// Approximate sampling for `mirror.rate` using the current timestamp's
/// sub-second nanoseconds as a cheap source of variation (not a
/// cryptographic RNG).
pub fn should_mirror(rate: u32) -> (r: bool)
    ensures
        exists|nanos: u32| nanos < 1_000_000_000 && r == spec_should_mirror_at(rate, nanos),
        rate >= 100 ==> r,
        rate == 0 ==> !r,
{
    let nanos = match since_unix_epoch(system_now()) {
        Ok(d) => subsec_nanos(&d),
        Err(_) => 0,
    };
    let r = should_mirror_at(rate, nanos);
    assert(nanos < 1_000_000_000 && r == spec_should_mirror_at(rate, nanos));
    r
}

/// Applied when a route does not set `timeout.total`: 30 seconds.
pub open spec fn spec_route_timeout(r: RouteConfig) -> Duration {
    match r.timeout.total {
        Some(t) => match duration_result(t@) {
            Ok(d) => d,
            Err(_) => spec_duration_from_secs(30),
        },
        None => spec_duration_from_secs(30),
    }
}

pub fn route_timeout(route: &RouteConfig) -> (d: Duration)
    requires
        route_durations_in_range(*route),
    ensures
        d == spec_route_timeout(*route),
{
    match route.timeout.total_duration() {
        Some(d) => d,
        None => crate::config::duration_from_secs(30),
    }
}

/// How a request that was not forwarded is answered.
#[derive(Debug, Clone, Copy, PartialEq, Eq, Structural)]
pub enum Reply {
    /// The configuration has no route at all.
    NoRoutes,
    /// No route matched the request.
    NoRoute,
    /// The route's plugin denied the request with this status.
    Denied(u16),
    /// The route has no upstream left to try.
    NoUpstream,
    /// Every attempt failed.
    BadGateway,
    /// The route's total timeout expired.
    GatewayTimeout,
}

/// `hyper::StatusCode::from_u16` succeeds: exactly the codes 100 to 999.
#[verifier::external_body]
fn status_code_valid(code: u16) -> (r: bool)
    ensures
        r == (100 <= code <= 999),
{
    hyper::StatusCode::from_u16(code).is_ok()
}

/// The status a reply carries; a plugin's status that is not an HTTP
/// status becomes 403.
pub open spec fn spec_reply_status(r: Reply) -> u16 {
    match r {
        Reply::NoRoutes => 502,
        Reply::NoRoute => 404,
        Reply::Denied(c) => if 100 <= c <= 999 { c } else { 403 },
        Reply::NoUpstream => 502,
        Reply::BadGateway => 502,
        Reply::GatewayTimeout => 504,
    }
}

/// The body text a reply carries.
pub open spec fn spec_reply_message(r: Reply) -> Seq<char> {
    match r {
        Reply::NoRoutes => "Bad Gateway: no routes configured"@,
        Reply::NoRoute => "Not Found: no route matched"@,
        Reply::Denied(_) => "Denied by plugin"@,
        Reply::NoUpstream => "Bad Gateway: no upstreams available"@,
        Reply::BadGateway => "Bad Gateway"@,
        Reply::GatewayTimeout => "Gateway Timeout"@,
    }
}

impl Reply {
    /// The HTTP status of this reply.
    pub fn status(&self) -> (s: u16)
        ensures
            s == spec_reply_status(*self),
            100 <= s <= 999,
    {
        match self {
            Reply::NoRoutes => 502,
            Reply::NoRoute => 404,
            Reply::Denied(c) => if status_code_valid(*c) {
                *c
            } else {
                403
            },
            Reply::NoUpstream => 502,
            Reply::BadGateway => 502,
            Reply::GatewayTimeout => 504,
        }
    }

    /// The body text of this reply.
    pub fn message(&self) -> (m: &'static str)
        ensures
            m@ == spec_reply_message(*self),
    {
        proof {
            reveal_strlit("Bad Gateway: no routes configured");
            reveal_strlit("Not Found: no route matched");
            reveal_strlit("Denied by plugin");
            reveal_strlit("Bad Gateway: no upstreams available");
            reveal_strlit("Bad Gateway");
            reveal_strlit("Gateway Timeout");
        }
        match self {
            Reply::NoRoutes => "Bad Gateway: no routes configured",
            Reply::NoRoute => "Not Found: no route matched",
            Reply::Denied(_) => "Denied by plugin",
            Reply::NoUpstream => "Bad Gateway: no upstreams available",
            Reply::BadGateway => "Bad Gateway",
            Reply::GatewayTimeout => "Gateway Timeout",
        }
    }
}

/// The route as it would be without a mirror.
pub open spec fn without_mirror(r: RouteConfig) -> RouteConfig {
    RouteConfig { mirror: None, ..r }
}

/// Taking the mirror off a route changes nothing that decides how a
/// request is answered: which route a request takes, the route's attempt
/// limit, its upstream schedule, its timeout, its header rewriting and its
/// plugin all stay as they were.
pub proof fn law_mirror_leaves_answer_unchanged(routes: Seq<RouteConfig>, k: int, host: Option<Seq<char>>, path: Seq<char>)
    requires
        0 <= k < routes.len(),
    ensures
        ({
            let routes2 = routes.update(k, without_mirror(routes[k]));
            let r = routes[k];
            let r2 = routes2[k];
            &&& first_matching_route(routes2, host, path) == first_matching_route(routes, host, path)
            &&& crate::config::spec_max_attempts(r2.retries, r2.upstream@.len())
                == crate::config::spec_max_attempts(r.retries, r.upstream@.len())
            &&& route_pools(r2) == route_pools(r)
            &&& spec_route_timeout(r2) == spec_route_timeout(r)
            &&& r2.headers == r.headers
            &&& r2.plugin == r.plugin
        }),
{
    let routes2 = routes.update(k, without_mirror(routes[k]));
    assert forall|i: int| 0 <= i < routes.len() implies #[trigger] routes2[i].host == routes[i].host
        && routes2[i].path == routes[i].path by {}
    lemma_first_match_same(routes, routes2, host, path);
}

/// Mirror rate of a mirror block: 100 when unset.
pub open spec fn mirror_rate(m: MirrorConfig) -> u32 {
    match m.rate {
        Some(r) => r,
        None => 100,
    }
}

/// Whether this request is also sent to the route's mirror. A request whose
/// body cannot be replayed is never mirrored, so mirroring never repeats a
/// side effect; otherwise the mirror's rate samples requests.
pub fn mirror_now(route: &RouteConfig, replayable: bool) -> (r: bool)
    ensures
        r ==> replayable && route.mirror is Some,
        match route.mirror {
            Some(m) => replayable ==> {
                &&& exists|nanos: u32| nanos < 1_000_000_000 && r == spec_should_mirror_at(mirror_rate(m), nanos)
                &&& mirror_rate(m) >= 100 ==> r
                &&& mirror_rate(m) == 0 ==> !r
            },
            None => !r,
        },
{
    match &route.mirror {
        Some(m) => {
            if !replayable {
                return false;
            }
            let rate = match m.rate {
                Some(r) => r,
                None => 100,
            };
            assert(rate == mirror_rate(*m));
            should_mirror(rate)
        },
        None => false,
    }
}

/// Where a request is in its handling.
#[derive(Debug, Clone, Copy, PartialEq, Eq, Structural)]
pub enum Phase {
    /// Waiting for the route's plugin to judge the request.
    Filtering,
    /// Waiting for an upstream to be picked.
    Picking,
    /// Waiting for the outcome of an attempt.
    Attempting,
    /// The answer has been decided.
    Finished,
}

/// What the proxy does next for a request.
#[derive(Debug, Clone, PartialEq, Eq)]
pub enum FlowStep {
    /// Run the route's plugin on the request.
    Evaluate,
    /// Pick an upstream, avoiding those already tried.
    Pick,
    /// Send an attempt to `upstream`. With `fresh_body` the request is
    /// rebuilt with an empty body; otherwise it carries the client's body,
    /// which can be sent only once.
    Send { upstream: String, fresh_body: bool },
    /// Forward the upstream's response.
    Forward,
    /// Answer the client directly.
    Answer(Reply),
}

/// The handling of one routed request: filter, then pick and attempt until
/// an upstream answers or the attempt budget runs out.
pub struct RequestFlow {
    pub retry: RetryState,
    pub phase: Phase,
    /// The upstream of the attempt in flight.
    pub pending: Option<String>,
}

/// A plan whose attempts a flow can run: at least one attempt, and only
/// one when the body cannot be rebuilt.
pub open spec fn plan_ok(p: AttemptPlan) -> bool {
    p.attempts >= 1 && (!p.can_retry ==> p.attempts == 1)
}

impl RequestFlow {
    /// Attempts stay within the plan: one is due whenever the flow picks or
    /// waits for an attempt.
    pub open spec fn wf(&self) -> bool {
        &&& plan_ok(self.retry.plan)
        &&& self.retry.made <= self.retry.plan.attempts
        &&& (self.phase == Phase::Filtering || self.phase == Phase::Picking) ==> self.retry.made < self.retry.plan.attempts
        &&& self.phase == Phase::Attempting ==> self.retry.made < self.retry.plan.attempts && self.pending is Some
    }

    /// Begin handling a routed request, with the route's plugin if it has
    /// one.
    pub fn start(plan: AttemptPlan, has_plugin: bool) -> (r: (RequestFlow, FlowStep))
        requires
            plan_ok(plan),
        ensures
            r.0.wf(),
            r.0.retry.plan == plan,
            r.0.retry.made == 0,
            r.0.retry.tried@.len() == 0,
            r.0.pending is None,
            has_plugin ==> r.0.phase == Phase::Filtering && r.1 == FlowStep::Evaluate,
            !has_plugin ==> r.0.phase == Phase::Picking && r.1 == FlowStep::Pick,
    {
        let retry = RetryState::new(plan);
        if has_plugin {
            (RequestFlow { retry, phase: Phase::Filtering, pending: None }, FlowStep::Evaluate)
        } else {
            (RequestFlow { retry, phase: Phase::Picking, pending: None }, FlowStep::Pick)
        }
    }

    /// The plugin judged the request: a denial answers it, anything else
    /// lets it through to the upstreams.
    pub fn on_verdict(&mut self, v: Verdict) -> (step: FlowStep)
        requires
            old(self).wf(),
            old(self).phase == Phase::Filtering,
        ensures
            final(self).wf(),
            final(self).retry == old(self).retry,
            final(self).pending == old(self).pending,
            match v {
                Verdict::Allow => final(self).phase == Phase::Picking && step == FlowStep::Pick,
                Verdict::Deny(c) => final(self).phase == Phase::Finished && step == FlowStep::Answer(Reply::Denied(c)),
            },
    {
        match v {
            Verdict::Allow => {
                self.phase = Phase::Picking;
                FlowStep::Pick
            },
            Verdict::Deny(c) => {
                self.phase = Phase::Finished;
                FlowStep::Answer(Reply::Denied(c))
            },
        }
    }

    /// The route's plugin ran, with `outcome` what its `on_request`
    /// returned (`None` when the run failed): the request goes on or is
    /// answered as the verdict for that outcome says.
    pub fn on_plugin_outcome(&mut self, outcome: Option<i32>) -> (step: FlowStep)
        requires
            old(self).wf(),
            old(self).phase == Phase::Filtering,
        ensures
            final(self).wf(),
            final(self).retry == old(self).retry,
            final(self).pending == old(self).pending,
            match spec_verdict(outcome) {
                Verdict::Allow => final(self).phase == Phase::Picking && step == FlowStep::Pick,
                Verdict::Deny(c) => final(self).phase == Phase::Finished && step == FlowStep::Answer(Reply::Denied(c)),
            },
    {
        let v = verdict_of(outcome);
        self.on_verdict(v)
    }

    /// An upstream was picked, or none is left. Only the first attempt of a
    /// request that cannot be retried carries the client's body.
    pub fn on_pick(&mut self, picked: Option<String>) -> (step: FlowStep)
        requires
            old(self).wf(),
            old(self).phase == Phase::Picking,
        ensures
            final(self).wf(),
            final(self).retry == old(self).retry,
            match picked {
                None => final(self).phase == Phase::Finished && step == FlowStep::Answer(Reply::NoUpstream),
                Some(u) => {
                    &&& final(self).phase == Phase::Attempting
                    &&& final(self).pending == Some(u)
                    &&& step == FlowStep::Send { upstream: u, fresh_body: old(self).retry.plan.can_retry }
                },
            },
            step matches FlowStep::Send { fresh_body, .. } && !fresh_body ==> old(self).retry.made == 0,
    {
        match picked {
            None => {
                self.phase = Phase::Finished;
                FlowStep::Answer(Reply::NoUpstream)
            },
            Some(u) => {
                let fresh_body = self.retry.plan.can_retry;
                self.pending = Some(u.clone());
                self.phase = Phase::Attempting;
                FlowStep::Send { upstream: u, fresh_body }
            },
        }
    }

    /// The attempt in flight ended: forward a response, try another
    /// upstream while retries remain, or answer 502/504.
    pub fn on_outcome(&mut self, outcome: AttemptOutcome) -> (step: FlowStep)
        requires
            old(self).wf(),
            old(self).phase == Phase::Attempting,
        ensures
            final(self).wf(),
            final(self).retry.plan == old(self).retry.plan,
            final(self).retry.made == old(self).retry.made + 1,
            final(self).retry.tried@ == if outcome is Failed {
                old(self).retry.tried@.push(old(self).pending->Some_0)
            } else {
                old(self).retry.tried@
            },
            final(self).pending is None,
            match spec_next_step(old(self).retry.plan, old(self).retry.made, outcome) {
                NextStep::Respond => final(self).phase == Phase::Finished && step == FlowStep::Forward,
                NextStep::Retry => final(self).phase == Phase::Picking && step == FlowStep::Pick,
                NextStep::BadGateway => final(self).phase == Phase::Finished && step == FlowStep::Answer(Reply::BadGateway),
                NextStep::GatewayTimeout => final(self).phase == Phase::Finished && step == FlowStep::Answer(Reply::GatewayTimeout),
            },
    {
        let upstream = match self.pending.take() {
            Some(u) => u,
            None => String::new(),
        };
        let next = self.retry.record(upstream, outcome);
        match next {
            NextStep::Respond => {
                self.phase = Phase::Finished;
                FlowStep::Forward
            },
            NextStep::Retry => {
                self.phase = Phase::Picking;
                FlowStep::Pick
            },
            NextStep::BadGateway => {
                self.phase = Phase::Finished;
                FlowStep::Answer(Reply::BadGateway)
            },
            NextStep::GatewayTimeout => {
                self.phase = Phase::Finished;
                FlowStep::Answer(Reply::GatewayTimeout)
            },
        }
    }
}

// ---------------------------------------------------------------------
// Engine state and reload

/// Index of the balancer registered for `name`: the last entry with that
/// name.
pub open spec fn lb_index(m: Seq<(String, LoadBalancer)>, name: Seq<char>) -> Option<int> {
    if exists|i: int| 0 <= i < m.len() && m[i].0@ == name {
        Some(choose|i: int| 0 <= i < m.len() && m[i].0@ == name && forall|j: int| i < j < m.len() ==> (#[trigger] m[j]).0@ != name)
    } else {
        None
    }
}

proof fn lemma_lb_index(m: Seq<(String, LoadBalancer)>, name: Seq<char>, i: int)
    requires
        0 <= i < m.len(),
        m[i].0@ == name,
        forall|j: int| i < j < m.len() ==> (#[trigger] m[j]).0@ != name,
    ensures
        lb_index(m, name) == Some(i),
{
    let k = choose|k: int| 0 <= k < m.len() && m[k].0@ == name && forall|j: int| k < j < m.len() ==> (#[trigger] m[j]).0@ != name;
    assert(0 <= k < m.len() && m[k].0@ == name && forall|j: int| k < j < m.len() ==> (#[trigger] m[j]).0@ != name);
    if k < i {
        assert(m[i].0@ != name);
    }
    if i < k {
        assert(m[k].0@ != name);
    }
}

/// Index of the first plugin compiled from `path`.
pub open spec fn first_plugin_index(ps: Seq<(String, Arc<Plugin>)>, path: Seq<char>) -> Option<int> {
    if exists|i: int| 0 <= i < ps.len() && ps[i].0@ == path {
        Some(choose|i: int| 0 <= i < ps.len() && ps[i].0@ == path && forall|j: int| 0 <= j < i ==> (#[trigger] ps[j]).0@ != path)
    } else {
        None
    }
}

proof fn lemma_first_plugin_index(ps: Seq<(String, Arc<Plugin>)>, path: Seq<char>, i: int)
    requires
        0 <= i < ps.len(),
        ps[i].0@ == path,
        forall|j: int| 0 <= j < i ==> (#[trigger] ps[j]).0@ != path,
    ensures
        first_plugin_index(ps, path) == Some(i),
{
    let k = choose|k: int| 0 <= k < ps.len() && ps[k].0@ == path && forall|j: int| 0 <= j < k ==> (#[trigger] ps[j]).0@ != path;
    assert(0 <= k < ps.len() && ps[k].0@ == path && forall|j: int| 0 <= j < k ==> (#[trigger] ps[j]).0@ != path);
    if k < i {
        assert(ps[k].0@ != path);
    }
    if i < k {
        assert(ps[i].0@ != path);
    }
}

/// The routing state one configuration produces: the configuration, one
/// balancer per route, and the upstreams' health.
pub struct EngineState {
    config: Config,
    lbs: Vec<(String, LoadBalancer)>,
    health: HealthRegistry,
    plugins: Vec<(String, Arc<Plugin>)>,
}

/// What routing decided for a request.
#[derive(Debug, Clone, Copy, PartialEq, Eq, Structural)]
pub struct RequestPlan {
    /// Index of the matched route in the configuration.
    pub route: usize,
    /// The request can be rebuilt for a retry or a mirror.
    pub replayable: bool,
    pub attempts: AttemptPlan,
}

impl EngineState {
    pub closed spec fn spec_config(&self) -> Config {
        self.config
    }

    pub closed spec fn spec_lbs(&self) -> Seq<(String, LoadBalancer)> {
        self.lbs@
    }

    pub closed spec fn spec_health(&self) -> Map<Seq<char>, bool> {
        self.health@
    }

    /// Compiled plugins by file path.
    pub closed spec fn spec_plugins(&self) -> Seq<(String, Arc<Plugin>)> {
        self.plugins@
    }

    /// A state running `config`, with the plugins compiled for it.
    pub fn new(config: Config, plugins: Vec<(String, Arc<Plugin>)>) -> (s: Self)
        ensures
            s.spec_config() == config,
            lb_map_built_from(s.spec_lbs(), config.route@),
            s.spec_health() == Map::<Seq<char>, bool>::empty(),
            s.spec_plugins() == plugins@,
    {
        let lbs = build_lb_map(&config);
        EngineState { config, lbs, health: HealthRegistry::new(), plugins }
    }

    /// The compiled plugin loaded from `path`, if any.
    pub fn plugin(&self, path: &str) -> (r: Option<&Arc<Plugin>>)
        ensures
            match first_plugin_index(self.spec_plugins(), path@) {
                Some(i) => r matches Some(p) && *p == self.spec_plugins()[i].1,
                None => r is None,
            },
    {
        let mut i: usize = 0;
        while i < self.plugins.len()
            invariant
                i <= self.plugins@.len(),
                forall|j: int| 0 <= j < i ==> (#[trigger] self.plugins@[j]).0@ != path@,
            decreases self.plugins@.len() - i,
        {
            if str_eq(self.plugins[i].0.as_str(), path) {
                proof {
                    lemma_first_plugin_index(self.plugins@, path@, i as int);
                }
                return Some(&self.plugins[i].1);
            }
            i = i + 1;
        }
        None
    }

    pub fn config(&self) -> (c: &Config)
        ensures
            *c == self.spec_config(),
    {
        &self.config
    }

    pub fn health(&self) -> (h: &HealthRegistry)
        ensures
            h@ == self.spec_health(),
    {
        &self.health
    }

    /// Record a probe result.
    pub fn set_health(&mut self, addr: &str, healthy: bool)
        ensures
            final(self).spec_health() == old(self).spec_health().insert(addr@, healthy),
            final(self).spec_config() == old(self).spec_config(),
            final(self).spec_lbs() == old(self).spec_lbs(),
    {
        self.health.set(addr, healthy);
    }

    /// Swap in `candidate` when it validates: the configuration, every
    /// balancer and the plugins compiled for it change together, health
    /// state carries over. A rejected candidate leaves the state exactly as
    /// it was.
    pub fn reload(&mut self, candidate: Config, plugins: Vec<(String, Arc<Plugin>)>) -> (r: Result<(), ConfigError>)
        ensures
            r == match config_error(candidate, BuildFeatures { acme: true, plugins: true }) {
                Some(e) => Err(e),
                None => Ok::<(), ConfigError>(()),
            },
            r is Err ==> *final(self) == *old(self),
            r is Ok ==> {
                &&& final(self).spec_config() == candidate
                &&& lb_map_built_from(final(self).spec_lbs(), candidate.route@)
                &&& final(self).spec_health() == old(self).spec_health()
                &&& final(self).spec_plugins() == plugins@
            },
    {
        match candidate.validate() {
            Err(e) => Err(e),
            Ok(()) => {
                let lbs = build_lb_map(&candidate);
                self.lbs = lbs;
                self.config = candidate;
                self.plugins = plugins;
                Ok(())
            },
        }
    }

    /// Route a request and plan its attempts.
    pub fn plan_request(&self, host: Option<&str>, path: &str, method: &str, body_size_hint: Option<u64>) -> (r: Option<RequestPlan>)
        ensures
            r matches Some(p) ==> plan_ok(p.attempts),
            match first_matching_route(self.spec_config().route@, opt_str_view(host), path@) {
                None => r is None,
                Some(i) => r matches Some(p) && p.route as int == i && p == (RequestPlan {
                    route: p.route,
                    replayable: spec_body_replayable(method@, body_size_hint),
                    attempts: spec_plan_attempts(
                        crate::config::spec_max_attempts(
                            self.spec_config().route@[i].retries,
                            self.spec_config().route@[i].upstream@.len(),
                        ),
                        spec_body_replayable(method@, body_size_hint),
                    ),
                }),
            },
    {
        match route_index(self.config.route.as_slice(), host, path) {
            None => None,
            Some(i) => {
                let replayable = body_replayable(method, body_size_hint);
                let max = self.config.route[i].max_attempts();
                Some(RequestPlan { route: i, replayable, attempts: plan_attempts(max, replayable) })
            },
        }
    }

    /// Pick an upstream for route `route_name`, avoiding `tried`: `None`
    /// when the route has no balancer or the balancer has no upstreams.
    pub fn pick_upstream(&mut self, route_name: &str, tried: &[String]) -> (r: Option<String>)
        ensures
            final(self).spec_config() == old(self).spec_config(),
            final(self).spec_health() == old(self).spec_health(),
            final(self).spec_lbs().len() == old(self).spec_lbs().len(),
            match lb_index(old(self).spec_lbs(), route_name@) {
                None => r is None && final(self).spec_lbs() == old(self).spec_lbs(),
                Some(i) => {
                    let lb = old(self).spec_lbs()[i].1;
                    let lb2 = final(self).spec_lbs()[i].1;
                    &&& lb2.source() == lb.source()
                    &&& lb2.schedule() == lb.schedule()
                    &&& forall|j: int| 0 <= j < old(self).spec_lbs().len() && j != i ==> final(self).spec_lbs()[j] == old(self).spec_lbs()[j]
                    &&& final(self).spec_lbs()[i].0 == old(self).spec_lbs()[i].0
                    &&& match spec_next_healthy(lb.schedule(), lb.counter(), old(self).spec_health(), strings_view(tried@)) {
                        None => r is None && lb2.counter() == lb.counter(),
                        Some(p) => r matches Some(a) && a@ == lb.schedule()[p].0 && lb2.counter() == next_counter(lb.counter()),
                    }
                },
            },
    {
        let i = match find_lb(self.lbs.as_slice(), route_name) {
            Some(i) => i,
            None => {
                return None;
            },
        };
        proof {
            lemma_lb_index(self.lbs@, route_name@, i as int);
        }
        let picked = self.lbs[i].1.next_healthy(&self.health, tried);
        match picked {
            Some(u) => Some(u.addr.clone()),
            None => None,
        }
    }
}

/// Which requests can be replayed: GET, HEAD and OPTIONS with an exact
/// body size of 0 are; a request whose size is unknown or nonzero is not;
/// neither is any other method. On a route with two or more upstreams and
/// no `retries`, a replayable request gets two attempts and may retry, and
/// any other request gets one.
pub proof fn law_replayable_requests(method: Seq<char>, hint: Option<u64>, n_upstreams: nat)
    ensures
        spec_body_replayable("GET"@, Some(0u64)),
        spec_body_replayable("HEAD"@, Some(0u64)),
        spec_body_replayable("OPTIONS"@, Some(0u64)),
        hint != Some(0u64) ==> !spec_body_replayable(method, hint),
        (method != "GET"@ && method != "HEAD"@ && method != "OPTIONS"@) ==> !spec_body_replayable(method, hint),
        n_upstreams >= 2 && spec_body_replayable(method, hint) ==> spec_plan_attempts(
            crate::config::spec_max_attempts(None, n_upstreams),
            spec_body_replayable(method, hint),
        ) == (AttemptPlan { can_retry: true, attempts: 2 }),
        !spec_body_replayable(method, hint) ==> spec_plan_attempts(
            crate::config::spec_max_attempts(None, n_upstreams),
            spec_body_replayable(method, hint),
        ) == (AttemptPlan { can_retry: false, attempts: 1 }),
{
}

/// A route without a total timeout waits 30 seconds; one with a total that
/// parses waits exactly that long.
pub proof fn law_route_timeout_default(r: RouteConfig)
    ensures
        r.timeout.total is None ==> spec_route_timeout(r) == crate::config::spec_duration_from_secs(30),
        r.timeout.total is Some && duration_result(r.timeout.total->Some_0@) is Ok ==> spec_route_timeout(r)
            == duration_result(r.timeout.total->Some_0@)->Ok_0,
{
}

/// A mirror without a rate mirrors every request it may (rate 100); a rate
/// of 0 mirrors none, and any rate of 100 or more mirrors all, whatever the
/// sample.
pub proof fn law_mirror_rate_default(m: MirrorConfig, nanos: u32)
    ensures
        m.rate is None ==> mirror_rate(m) == 100 && spec_should_mirror_at(mirror_rate(m), nanos),
        m.rate == Some(0u32) ==> !spec_should_mirror_at(mirror_rate(m), nanos),
        m.rate matches Some(r) && r >= 100 ==> spec_should_mirror_at(mirror_rate(m), nanos),
{
}

} // verus!

//! Startup/reload validation: reject configurations that cannot work.
use vstd::prelude::*;
use crate::config::{
    checked_duration, duration_check, duration_fits, duration_result, opt_duration_in_range, parse_duration, Config, DurationError,
    HealthCheckConfig, ListenerConfig, RouteConfig, UpstreamConfig,
};
use crate::proxy::{spec_upstream_host_port, upstream_host_port, HostPortError};
use crate::upstream::{lemma_schedule_bounded, route_pools, spec_schedule};
use crate::text::{chars_of, decimal_string, seq_starts_with, spec_decimal, str_eq};
use vstd::utf8::encode_utf8;
use crate::headers::{header_name_from_bytes, spec_header_name};
use vstd::string::StringExecFns;

verus! {

/// What `s.parse::<SocketAddr>()` accepts.
pub uninterp spec fn spec_socket_addr_parses(s: Seq<char>) -> bool;

/// The text of the error `s.parse::<hyper::Uri>()` fails with, or none
/// when it parses.
pub uninterp spec fn spec_uri_error(s: Seq<char>) -> Option<Seq<char>>;

/// What `s.parse::<hyper::Uri>()` accepts.
pub open spec fn spec_uri_parses(s: Seq<char>) -> bool {
    spec_uri_error(s) is None
}

/// The text of `s`'s URI error; empty when it parses.
pub open spec fn uri_error_text(s: Seq<char>) -> Seq<char> {
    match spec_uri_error(s) {
        Some(m) => m,
        None => Seq::empty(),
    }
}

/// `HeaderValue::from_str` accepts exactly the strings whose bytes are all
/// visible (at least 32 and not 127) or a tab.
pub open spec fn header_value_ok(bytes: Seq<u8>) -> bool {
    forall|i: int| 0 <= i < bytes.len() ==> ((#[trigger] bytes[i] >= 32 && bytes[i] != 127) || bytes[i] == 9)
}

/// `str::parse::<core::net::SocketAddr>` succeeds.
#[verifier::external_body]
fn socket_addr_parses(s: &str) -> (r: bool)
    ensures
        r == spec_socket_addr_parses(s@),
{
    s.parse::<core::net::SocketAddr>().is_ok()
}

/// `str::parse::<hyper::Uri>`: the text of its error (`InvalidUri`'s
/// `Display`), or `None` when `s` parses.
#[verifier::external_body]
pub(crate) fn uri_error(s: &str) -> (r: Option<String>)
    ensures
        match r {
            Some(m) => spec_uri_error(s@) == Some(m@),
            None => spec_uri_error(s@) is None,
        },
{
    match s.parse::<hyper::Uri>() {
        Ok(_) => None,
        Err(e) => Some(e.to_string()),
    }
}

/// Whether `s` parses as a `hyper::Uri`.
pub(crate) fn uri_parses(s: &str) -> (r: bool)
    ensures
        r == spec_uri_parses(s@),
{
    match uri_error(s) {
        Some(_) => false,
        None => true,
    }
}

/// `hyper::header::HeaderValue::from_str` succeeds.
#[verifier::external_body]
pub(crate) fn header_value_parses(s: &str) -> (r: bool)
    ensures
        r == header_value_ok(encode_utf8(s@)),
{
    hyper::header::HeaderValue::from_str(s).is_ok()
}

/// Optional parts of the proxy that a build may leave out.
#[derive(Debug, Clone, Copy, PartialEq, Eq, Structural)]
pub struct BuildFeatures {
    /// Automatic HTTPS via ACME.
    pub acme: bool,
    /// Sandboxed WASM request filters.
    pub plugins: bool,
}

impl BuildFeatures {
    /// What this build supports: both ACME listeners and WASM plugins.
    pub fn enabled() -> (f: Self)
        ensures
            f.acme && f.plugins,
    {
        BuildFeatures { acme: true, plugins: true }
    }
}

/// Why a configuration was rejected.
#[derive(Debug, Clone, PartialEq, Eq)]
#[allow(inconsistent_fields)]
pub enum ConfigError {
    NoListeners,
    NoRoutes,
    InvalidListenerAddr { addr: String },
    AcmeRequiresHttps { addr: String },
    AcmeWithStaticCert { addr: String },
    AcmeWithClientCa { addr: String },
    AcmeWithoutDomains { addr: String },
    InvalidAcmeDirectoryUrl { addr: String, url: String },
    AcmeNotBuilt { addr: String },
    HttpsWithoutCert { addr: String },
    UnsupportedProtocol { protocol: String },
    ClientCaRequiresHttps { addr: String },
    NoUpstreams { route: String },
    PathWithoutSlash { route: String, path: String },
    HttpsUpstream { route: String, upstream: String },
    WeightTooHigh { route: String, upstream: String, weight: u32 },
    InvalidUpstream { route: String, upstream: String, cause: HostPortError },
    InvalidTimeoutTotal { route: String, value: String, cause: DurationError },
    InvalidHealthInterval { route: String, value: String, cause: DurationError },
    InvalidHealthTimeout { route: String, value: String, cause: DurationError },
    ZeroRetries { route: String },
    PluginsNotBuilt { route: String },
    InvalidMirrorAddr { route: String, addr: String, cause: HostPortError },
    MirrorRateTooHigh { route: String, rate: u32 },
    InvalidHeaderName { route: String, name: String },
    InvalidHeaderValue { route: String, name: String },
}

/// Accepted-but-ignored settings worth a warning at startup.
#[derive(Debug, Clone, PartialEq, Eq)]
pub enum ConfigWarning {
    /// `when` expressions are not implemented and are ignored.
    WhenIgnored { route: String },
    /// Only `timeout.total` is enforced.
    TimeoutPartsIgnored { route: String },
}

pub open spec fn listener_error(l: ListenerConfig, f: BuildFeatures) -> Option<ConfigError> {
    if !spec_socket_addr_parses(l.addr@) {
        Some(ConfigError::InvalidListenerAddr { addr: l.addr })
    } else if l.protocol@ == "http"@ {
        if l.acme is Some {
            Some(ConfigError::AcmeRequiresHttps { addr: l.addr })
        } else if l.tls_client_ca is Some {
            Some(ConfigError::ClientCaRequiresHttps { addr: l.addr })
        } else {
            None
        }
    } else if l.protocol@ == "https"@ {
        match l.acme {
            Some(a) => if l.tls_cert is Some || l.tls_key is Some {
                Some(ConfigError::AcmeWithStaticCert { addr: l.addr })
            } else if l.tls_client_ca is Some {
                Some(ConfigError::AcmeWithClientCa { addr: l.addr })
            } else if a.domains@.len() == 0 {
                Some(ConfigError::AcmeWithoutDomains { addr: l.addr })
            } else if a.directory_url matches Some(u) && !spec_uri_parses(u@) {
                Some(ConfigError::InvalidAcmeDirectoryUrl { addr: l.addr, url: a.directory_url->Some_0 })
            } else if !f.acme {
                Some(ConfigError::AcmeNotBuilt { addr: l.addr })
            } else {
                None
            },
            None => if l.tls_cert is None || l.tls_key is None {
                Some(ConfigError::HttpsWithoutCert { addr: l.addr })
            } else {
                None
            },
        }
    } else {
        Some(ConfigError::UnsupportedProtocol { protocol: l.protocol })
    }
}

/// The first error among `ls`, in order.
pub open spec fn first_listener_error(ls: Seq<ListenerConfig>, f: BuildFeatures) -> Option<ConfigError>
    decreases ls.len(),
{
    if ls.len() == 0 {
        None
    } else {
        match first_listener_error(ls.drop_last(), f) {
            Some(e) => Some(e),
            None => listener_error(ls.last(), f),
        }
    }
}

/// Largest upstream weight a configuration may set: the balancer's
/// schedule grows with the largest reduced weight, so an unbounded weight
/// would force an unbounded allocation at startup or reload.
pub const MAX_UPSTREAM_WEIGHT: u32 = 10000;

pub open spec fn https_scheme() -> Seq<char> {
    seq!['h', 't', 't', 'p', 's', ':', '/', '/']
}

pub open spec fn upstream_error(route: String, u: UpstreamConfig) -> Option<ConfigError> {
    if seq_starts_with(u.addr@, https_scheme()) {
        Some(ConfigError::HttpsUpstream { route, upstream: u.addr })
    } else {
        match spec_upstream_host_port(u.addr@) {
            Err(cause) => Some(ConfigError::InvalidUpstream { route, upstream: u.addr, cause }),
            Ok(_) => match u.weight {
                Some(w) if w > MAX_UPSTREAM_WEIGHT => Some(ConfigError::WeightTooHigh { route, upstream: u.addr, weight: w }),
                _ => None,
            },
        }
    }
}

pub open spec fn first_upstream_error(route: String, us: Seq<UpstreamConfig>) -> Option<ConfigError>
    decreases us.len(),
{
    if us.len() == 0 {
        None
    } else {
        match first_upstream_error(route, us.drop_last()) {
            Some(e) => Some(e),
            None => upstream_error(route, us.last()),
        }
    }
}

pub open spec fn header_error(route: String, h: (String, String)) -> Option<ConfigError> {
    if spec_header_name(encode_utf8(h.0@)) is None {
        Some(ConfigError::InvalidHeaderName { route, name: h.0 })
    } else if h.1@.len() > 0 && !header_value_ok(encode_utf8(h.1@)) {
        Some(ConfigError::InvalidHeaderValue { route, name: h.0 })
    } else {
        None
    }
}

pub open spec fn first_header_error(route: String, hs: Seq<(String, String)>) -> Option<ConfigError>
    decreases hs.len(),
{
    if hs.len() == 0 {
        None
    } else {
        match first_header_error(route, hs.drop_last()) {
            Some(e) => Some(e),
            None => header_error(route, hs.last()),
        }
    }
}

pub open spec fn opt_headers(h: Option<Vec<(String, String)>>) -> Seq<(String, String)> {
    match h {
        Some(v) => v@,
        None => Seq::empty(),
    }
}

pub open spec fn health_check_error(route: String, hc: HealthCheckConfig) -> Option<ConfigError> {
    match hc.interval {
        Some(t) if duration_check(t@) is Err => Some(
            ConfigError::InvalidHealthInterval { route, value: t, cause: duration_check(t@)->Err_0 },
        ),
        _ => match hc.timeout {
            Some(t) if duration_check(t@) is Err => Some(
                ConfigError::InvalidHealthTimeout { route, value: t, cause: duration_check(t@)->Err_0 },
            ),
            _ => None,
        },
    }
}

pub open spec fn route_error(r: RouteConfig, f: BuildFeatures) -> Option<ConfigError> {
    if r.upstream@.len() == 0 {
        Some(ConfigError::NoUpstreams { route: r.name })
    } else if r.path matches Some(p) && !(p@.len() > 0 && p@[0] == '/') {
        Some(ConfigError::PathWithoutSlash { route: r.name, path: r.path->Some_0 })
    } else if first_upstream_error(r.name, r.upstream@) is Some {
        first_upstream_error(r.name, r.upstream@)
    } else if r.timeout.total matches Some(t) && duration_check(t@) is Err {
        Some(ConfigError::InvalidTimeoutTotal { route: r.name, value: r.timeout.total->Some_0, cause: duration_check(r.timeout.total->Some_0@)->Err_0 })
    } else if r.health_check matches Some(hc) && health_check_error(r.name, hc) is Some {
        health_check_error(r.name, r.health_check->Some_0)
    } else if r.retries == Some(0u32) {
        Some(ConfigError::ZeroRetries { route: r.name })
    } else if r.plugin is Some && !f.plugins {
        Some(ConfigError::PluginsNotBuilt { route: r.name })
    } else if r.mirror matches Some(m) && spec_upstream_host_port(m.addr@) is Err {
        Some(ConfigError::InvalidMirrorAddr {
            route: r.name,
            addr: r.mirror->Some_0.addr,
            cause: spec_upstream_host_port(r.mirror->Some_0.addr@)->Err_0,
        })
    } else if r.mirror matches Some(m) && m.rate matches Some(rate) && rate > 100 {
        Some(ConfigError::MirrorRateTooHigh { route: r.name, rate: r.mirror->Some_0.rate->Some_0 })
    } else {
        first_header_error(r.name, opt_headers(r.headers.request) + opt_headers(r.headers.response))
    }
}

pub open spec fn first_route_error(rs: Seq<RouteConfig>, f: BuildFeatures) -> Option<ConfigError>
    decreases rs.len(),
{
    if rs.len() == 0 {
        None
    } else {
        match first_route_error(rs.drop_last(), f) {
            Some(e) => Some(e),
            None => route_error(rs.last(), f),
        }
    }
}

/// The error `validate` reports for `c`, if any: no listeners, no routes,
/// then the first bad listener, then the first bad route, in config order.
pub open spec fn config_error(c: Config, f: BuildFeatures) -> Option<ConfigError> {
    if c.listener@.len() == 0 {
        Some(ConfigError::NoListeners)
    } else if c.route@.len() == 0 {
        Some(ConfigError::NoRoutes)
    } else {
        match first_listener_error(c.listener@, f) {
            Some(e) => Some(e),
            None => first_route_error(c.route@, f),
        }
    }
}

/// Every duration the configuration names can be represented.
pub open spec fn route_durations_in_range(r: RouteConfig) -> bool {
    &&& opt_duration_in_range(r.timeout.total)
    &&& (r.health_check matches Some(hc) ==> opt_duration_in_range(hc.interval) && opt_duration_in_range(hc.timeout))
}

pub open spec fn durations_in_range(c: Config) -> bool {
    forall|i: int| 0 <= i < c.route@.len() ==> route_durations_in_range(#[trigger] c.route@[i])
}

pub(crate) fn listener_check(l: &ListenerConfig, f: BuildFeatures) -> (r: Result<(), ConfigError>)
    ensures
        r == match listener_error(*l, f) {
            Some(e) => Err(e),
            None => Ok::<(), ConfigError>(()),
        },
{
    if !socket_addr_parses(l.addr.as_str()) {
        return Err(ConfigError::InvalidListenerAddr { addr: l.addr.clone() });
    }
    if str_eq(l.protocol.as_str(), "http") {
        if l.acme.is_some() {
            return Err(ConfigError::AcmeRequiresHttps { addr: l.addr.clone() });
        }
        if l.tls_client_ca.is_some() {
            return Err(ConfigError::ClientCaRequiresHttps { addr: l.addr.clone() });
        }
        Ok(())
    } else if str_eq(l.protocol.as_str(), "https") {
        match &l.acme {
            Some(acme) => {
                if l.tls_cert.is_some() || l.tls_key.is_some() {
                    return Err(ConfigError::AcmeWithStaticCert { addr: l.addr.clone() });
                }
                if l.tls_client_ca.is_some() {
                    return Err(ConfigError::AcmeWithClientCa { addr: l.addr.clone() });
                }
                if acme.domains.len() == 0 {
                    return Err(ConfigError::AcmeWithoutDomains { addr: l.addr.clone() });
                }
                if let Some(url) = &acme.directory_url {
                    if !uri_parses(url.as_str()) {
                        return Err(ConfigError::InvalidAcmeDirectoryUrl { addr: l.addr.clone(), url: url.clone() });
                    }
                }
                if !f.acme {
                    return Err(ConfigError::AcmeNotBuilt { addr: l.addr.clone() });
                }
                Ok(())
            },
            None => {
                if l.tls_cert.is_none() || l.tls_key.is_none() {
                    return Err(ConfigError::HttpsWithoutCert { addr: l.addr.clone() });
                }
                Ok(())
            },
        }
    } else {
        Err(ConfigError::UnsupportedProtocol { protocol: l.protocol.clone() })
    }
}

fn upstream_check(route: &String, u: &UpstreamConfig) -> (r: Result<(), ConfigError>)
    ensures
        r == match upstream_error(*route, *u) {
            Some(e) => Err(e),
            None => Ok::<(), ConfigError>(()),
        },
{
    let v = chars_of(u.addr.as_str());
    let https = v.len() >= 8 && v[0] == 'h' && v[1] == 't' && v[2] == 't' && v[3] == 'p' && v[4] == 's'
        && v[5] == ':' && v[6] == '/' && v[7] == '/';
    proof {
        if https {
            assert(v@.take(8) =~= https_scheme());
        } else if v@.len() >= 8 && v@.take(8) == https_scheme() {
            assert(v@.take(8)[0] == 'h');
            assert(v@.take(8)[1] == 't');
            assert(v@.take(8)[2] == 't');
            assert(v@.take(8)[3] == 'p');
            assert(v@.take(8)[4] == 's');
            assert(v@.take(8)[5] == ':');
            assert(v@.take(8)[6] == '/');
            assert(v@.take(8)[7] == '/');
        }
    }
    if https {
        return Err(ConfigError::HttpsUpstream { route: route.clone(), upstream: u.addr.clone() });
    }
    match upstream_host_port(u.addr.as_str()) {
        Err(cause) => Err(ConfigError::InvalidUpstream { route: route.clone(), upstream: u.addr.clone(), cause }),
        Ok(_) => match u.weight {
            Some(w) => if w > MAX_UPSTREAM_WEIGHT {
                Err(ConfigError::WeightTooHigh { route: route.clone(), upstream: u.addr.clone(), weight: w })
            } else {
                Ok(())
            },
            None => Ok(()),
        },
    }
}

fn header_check(route: &String, h: &(String, String)) -> (r: Result<(), ConfigError>)
    ensures
        r == match header_error(*route, *h) {
            Some(e) => Err(e),
            None => Ok::<(), ConfigError>(()),
        },
{
    if header_name_from_bytes(h.0.as_str().as_bytes()).is_none() {
        return Err(ConfigError::InvalidHeaderName { route: route.clone(), name: h.0.clone() });
    }
    let v = chars_of(h.1.as_str());
    if v.len() > 0 && !header_value_parses(h.1.as_str()) {
        return Err(ConfigError::InvalidHeaderValue { route: route.clone(), name: h.0.clone() });
    }
    Ok(())
}

fn headers_check(route: &String, hs: &Vec<(String, String)>, done: Ghost<Seq<(String, String)>>) -> (r: Result<(), ConfigError>)
    requires
        first_header_error(*route, done@) is None,
    ensures
        r == match first_header_error(*route, done@ + hs@) {
            Some(e) => Err(e),
            None => Ok::<(), ConfigError>(()),
        },
{
    let mut i: usize = 0;
    while i < hs.len()
        invariant
            i <= hs@.len(),
            first_header_error(*route, done@ + hs@.take(i as int)) is None,
        decreases hs@.len() - i,
    {
        let r = header_check(route, &hs[i]);
        assert((done@ + hs@.take(i + 1)).drop_last() =~= done@ + hs@.take(i as int));
        assert((done@ + hs@.take(i + 1)).last() == hs@[i as int]);
        if r.is_err() {
            proof {
                lemma_first_header_error_extends(*route, done@ + hs@.take(i + 1), done@ + hs@);
            }
            return r;
        }
        i = i + 1;
    }
    assert(done@ + hs@.take(i as int) =~= done@ + hs@);
    Ok(())
}

proof fn lemma_first_header_error_extends(route: String, a: Seq<(String, String)>, b: Seq<(String, String)>)
    requires
        a.len() <= b.len(),
        a =~= b.take(a.len() as int),
        first_header_error(route, a) is Some,
    ensures
        first_header_error(route, b) == first_header_error(route, a),
    decreases b.len(),
{
    if b.len() > a.len() {
        assert(a =~= b.drop_last().take(a.len() as int));
        lemma_first_header_error_extends(route, a, b.drop_last());
    } else {
        assert(a =~= b);
    }
}

fn durations_check(route: &RouteConfig) -> (r: Result<(), ConfigError>)
    ensures
        r == match (if route.timeout.total matches Some(t) && duration_check(t@) is Err {
            Some(ConfigError::InvalidTimeoutTotal { route: route.name, value: route.timeout.total->Some_0, cause: duration_check(route.timeout.total->Some_0@)->Err_0 })
        } else if route.health_check matches Some(hc) && health_check_error(route.name, hc) is Some {
            health_check_error(route.name, route.health_check->Some_0)
        } else {
            None
        }) {
            Some(e) => Err(e),
            None => Ok::<(), ConfigError>(()),
        },
{
    if let Some(total) = &route.timeout.total {
        if let Err(cause) = checked_duration(total.as_str()) {
            return Err(ConfigError::InvalidTimeoutTotal { route: route.name.clone(), value: total.clone(), cause });
        }
    }
    if let Some(hc) = &route.health_check {
        if let Some(interval) = &hc.interval {
            if let Err(cause) = checked_duration(interval.as_str()) {
                return Err(ConfigError::InvalidHealthInterval { route: route.name.clone(), value: interval.clone(), cause });
            }
        }
        if let Some(timeout) = &hc.timeout {
            if let Err(cause) = checked_duration(timeout.as_str()) {
                return Err(ConfigError::InvalidHealthTimeout { route: route.name.clone(), value: timeout.clone(), cause });
            }
        }
    }
    Ok(())
}

fn route_check(route: &RouteConfig, f: BuildFeatures) -> (r: Result<(), ConfigError>)
    ensures
        r == match route_error(*route, f) {
            Some(e) => Err(e),
            None => Ok::<(), ConfigError>(()),
        },
{
    if route.upstream.len() == 0 {
        return Err(ConfigError::NoUpstreams { route: route.name.clone() });
    }
    if let Some(path) = &route.path {
        let v = chars_of(path.as_str());
        if !(v.len() > 0 && v[0] == '/') {
            return Err(ConfigError::PathWithoutSlash { route: route.name.clone(), path: path.clone() });
        }
    }
    let mut i: usize = 0;
    while i < route.upstream.len()
        invariant
            i <= route.upstream@.len(),
            route.upstream@.len() > 0,
            !(route.path matches Some(p) && !(p@.len() > 0 && p@[0] == '/')),
            first_upstream_error(route.name, route.upstream@.take(i as int)) is None,
        decreases route.upstream@.len() - i,
    {
        let r = upstream_check(&route.name, &route.upstream[i]);
        assert(route.upstream@.take(i + 1).drop_last() =~= route.upstream@.take(i as int));
        if r.is_err() {
            proof {
                lemma_first_upstream_error_extends(route.name, route.upstream@.take(i + 1), route.upstream@);
            }
            return r;
        }
        i = i + 1;
    }
    assert(route.upstream@.take(i as int) =~= route.upstream@);
    let d = durations_check(route);
    if d.is_err() {
        return d;
    }
    if route.retries == Some(0u32) {
        return Err(ConfigError::ZeroRetries { route: route.name.clone() });
    }
    if route.plugin.is_some() && !f.plugins {
        return Err(ConfigError::PluginsNotBuilt { route: route.name.clone() });
    }
    if let Some(mirror) = &route.mirror {
        if let Err(cause) = upstream_host_port(mirror.addr.as_str()) {
            return Err(ConfigError::InvalidMirrorAddr { route: route.name.clone(), addr: mirror.addr.clone(), cause });
        }
        if let Some(rate) = mirror.rate {
            if rate > 100 {
                return Err(ConfigError::MirrorRateTooHigh { route: route.name.clone(), rate });
            }
        }
    }
    let req_ok = match &route.headers.request {
        Some(hs) => headers_check(&route.name, hs, Ghost(Seq::empty())),
        None => Ok(()),
    };
    assert(Seq::<(String, String)>::empty() + opt_headers(route.headers.request) =~= opt_headers(route.headers.request));
    if req_ok.is_err() {
        proof {
            lemma_first_header_error_extends(
                route.name,
                opt_headers(route.headers.request),
                opt_headers(route.headers.request) + opt_headers(route.headers.response),
            );
        }
        return req_ok;
    }
    match &route.headers.response {
        Some(hs) => headers_check(&route.name, hs, Ghost(opt_headers(route.headers.request))),
        None => {
            assert(opt_headers(route.headers.request) + opt_headers(route.headers.response) =~= opt_headers(route.headers.request));
            Ok(())
        },
    }
}

proof fn lemma_first_upstream_error_extends(route: String, a: Seq<UpstreamConfig>, b: Seq<UpstreamConfig>)
    requires
        a.len() <= b.len(),
        a =~= b.take(a.len() as int),
        first_upstream_error(route, a) is Some,
    ensures
        first_upstream_error(route, b) == first_upstream_error(route, a),
    decreases b.len(),
{
    if b.len() > a.len() {
        assert(a =~= b.drop_last().take(a.len() as int));
        lemma_first_upstream_error_extends(route, a, b.drop_last());
    } else {
        assert(a =~= b);
    }
}

pub(crate) proof fn lemma_first_listener_error_extends(a: Seq<ListenerConfig>, b: Seq<ListenerConfig>, f: BuildFeatures)
    requires
        a.len() <= b.len(),
        a =~= b.take(a.len() as int),
        first_listener_error(a, f) is Some,
    ensures
        first_listener_error(b, f) == first_listener_error(a, f),
    decreases b.len(),
{
    if b.len() > a.len() {
        assert(a =~= b.drop_last().take(a.len() as int));
        lemma_first_listener_error_extends(a, b.drop_last(), f);
    } else {
        assert(a =~= b);
    }
}

proof fn lemma_first_route_error_extends(a: Seq<RouteConfig>, b: Seq<RouteConfig>, f: BuildFeatures)
    requires
        a.len() <= b.len(),
        a =~= b.take(a.len() as int),
        first_route_error(a, f) is Some,
    ensures
        first_route_error(b, f) == first_route_error(a, f),
    decreases b.len(),
{
    if b.len() > a.len() {
        assert(a =~= b.drop_last().take(a.len() as int));
        lemma_first_route_error_extends(a, b.drop_last(), f);
    } else {
        assert(a =~= b);
    }
}

impl Config {
    /// Reject configs that cannot work, for a build with the given optional
    /// parts.
    #[verifier::rlimit(40)]
    pub fn validate_with(&self, features: BuildFeatures) -> (r: Result<(), ConfigError>)
        ensures
            r == match config_error(*self, features) {
                Some(e) => Err(e),
                None => Ok::<(), ConfigError>(()),
            },
            r is Ok ==> durations_in_range(*self),
    {
        if self.listener.len() == 0 {
            return Err(ConfigError::NoListeners);
        }
        if self.route.len() == 0 {
            return Err(ConfigError::NoRoutes);
        }
        let mut i: usize = 0;
        while i < self.listener.len()
            invariant
                i <= self.listener@.len(),
                self.listener@.len() > 0,
                self.route@.len() > 0,
                first_listener_error(self.listener@.take(i as int), features) is None,
            decreases self.listener@.len() - i,
        {
            let r = listener_check(&self.listener[i], features);
            assert(self.listener@.take(i + 1).drop_last() =~= self.listener@.take(i as int));
            if r.is_err() {
                proof {
                    lemma_first_listener_error_extends(self.listener@.take(i + 1), self.listener@, features);
                }
                return r;
            }
            i = i + 1;
        }
        assert(self.listener@.take(i as int) =~= self.listener@);
        i = 0;
        while i < self.route.len()
            invariant
                i <= self.route@.len(),
                self.listener@.len() > 0,
                self.route@.len() > 0,
                first_listener_error(self.listener@, features) is None,
                first_route_error(self.route@.take(i as int), features) is None,
            decreases self.route@.len() - i,
        {
            let r = route_check(&self.route[i], features);
            assert(self.route@.take(i + 1).drop_last() =~= self.route@.take(i as int));
            if r.is_err() {
                proof {
                    lemma_first_route_error_extends(self.route@.take(i + 1), self.route@, features);
                }
                return r;
            }
            i = i + 1;
        }
        assert(self.route@.take(i as int) =~= self.route@);
        proof {
            lemma_validated_durations_in_range(*self, features);
        }
        Ok(())
    }

    /// Reject configs that cannot work with this build.
    pub fn validate(&self) -> (r: Result<(), ConfigError>)
        ensures
            r == match config_error(*self, BuildFeatures { acme: true, plugins: true }) {
                Some(e) => Err(e),
                None => Ok::<(), ConfigError>(()),
            },
            r is Ok ==> durations_in_range(*self),
    {
        self.validate_with(BuildFeatures::enabled())
    }
}

impl ConfigError {
    /// The human-readable text of this error.
    pub open spec fn spec_message(&self) -> Seq<char> {
        match self {
            ConfigError::NoListeners => "Config must define at least one [[listener]]"@,
            ConfigError::NoRoutes => "Config must define at least one [[route]]"@,
            ConfigError::InvalidListenerAddr { addr } => "Invalid listener addr '"@ + addr@ + "': invalid socket address syntax"@,
            ConfigError::AcmeRequiresHttps { addr } => "listener "@ + addr@ + ": acme requires protocol = \"https\""@,
            ConfigError::AcmeWithStaticCert { addr } => "listener "@ + addr@ + ": acme is mutually exclusive with tls_cert/tls_key"@,
            ConfigError::AcmeWithClientCa { addr } => "listener "@ + addr@ + ": acme combined with tls_client_ca (mTLS) is not supported yet"@,
            ConfigError::AcmeWithoutDomains { addr } => "listener "@ + addr@ + ": acme.domains must list at least one domain"@,
            ConfigError::InvalidAcmeDirectoryUrl { addr, url } => "listener "@ + addr@ + ": invalid acme.directory_url: "@
                + uri_error_text(url@),
            ConfigError::AcmeNotBuilt { addr } => "listener "@ + addr@ + ": acme is set but this build was compiled without --features acme"@,
            ConfigError::HttpsWithoutCert { addr } => "HTTPS listener "@ + addr@ + " requires tls_cert and tls_key (or an acme block)"@,
            ConfigError::UnsupportedProtocol { protocol } => "Unsupported listener protocol '"@ + protocol@ + "' (expected \"http\" or \"https\")"@,
            ConfigError::ClientCaRequiresHttps { addr } => "listener "@ + addr@ + ": tls_client_ca requires protocol = \"https\""@,
            ConfigError::NoUpstreams { route } => "Route '"@ + route@ + "' has no upstreams"@,
            ConfigError::PathWithoutSlash { route, path } => "Route '"@ + route@ + "': path '"@ + path@ + "' must start with '/'"@,
            ConfigError::HttpsUpstream { route, upstream } => "Route '"@ + route@ + "': upstream '"@ + upstream@ + "' uses https:// but TLS to upstreams is not implemented yet; use an http:// upstream"@,
            ConfigError::InvalidUpstream { route, upstream, cause } => "Route '"@ + route@ + "': invalid upstream '"@ + upstream@ + "': "@ + cause.spec_describe(upstream@),
            ConfigError::WeightTooHigh { route, upstream, weight } => "Route '"@ + route@ + "': upstream '"@ + upstream@ + "' weight "@ + spec_decimal(*weight as nat) + " exceeds the maximum of 10000"@,
            ConfigError::InvalidTimeoutTotal { route, value, cause } => "Route '"@ + route@ + "': invalid timeout.total: "@ + cause.spec_describe(value@),
            ConfigError::InvalidHealthInterval { route, value, cause } => "Route '"@ + route@ + "': invalid health_check.interval: "@ + cause.spec_describe(value@),
            ConfigError::InvalidHealthTimeout { route, value, cause } => "Route '"@ + route@ + "': invalid health_check.timeout: "@ + cause.spec_describe(value@),
            ConfigError::ZeroRetries { route } => "Route '"@ + route@ + "': retries must be at least 1"@,
            ConfigError::PluginsNotBuilt { route } => "Route '"@ + route@ + "': plugin is set but this build was compiled without --features plugins"@,
            ConfigError::InvalidMirrorAddr { route, addr, cause } => "Route '"@ + route@ + "': invalid mirror.addr '"@ + addr@ + "': "@ + cause.spec_describe(addr@),
            ConfigError::MirrorRateTooHigh { route, rate } => "Route '"@ + route@ + "': mirror.rate must be 0-100, got "@ + spec_decimal(*rate as nat),
            ConfigError::InvalidHeaderName { route, name } => "Route '"@ + route@ + "': invalid header name '"@ + name@ + "': invalid HTTP header name"@,
            ConfigError::InvalidHeaderValue { route, name } => "Route '"@ + route@ + "': invalid header value for '"@ + name@ + "': failed to parse header value"@,
        }
    }

    /// The human-readable text of this error.
    pub fn message(&self) -> (m: String)
        ensures
            m@ == self.spec_message(),
    {
        match self {
            ConfigError::NoListeners => {
                let mut m = String::from_str("Config must define at least one [[listener]]");
                m
            },
            ConfigError::NoRoutes => {
                let mut m = String::from_str("Config must define at least one [[route]]");
                m
            },
            ConfigError::InvalidListenerAddr { addr } => {
                let mut m = String::from_str("Invalid listener addr '");
                m.append(addr.as_str());
                m.append("': invalid socket address syntax");
                m
            },
            ConfigError::AcmeRequiresHttps { addr } => {
                let mut m = String::from_str("listener ");
                m.append(addr.as_str());
                m.append(": acme requires protocol = \"https\"");
                m
            },
            ConfigError::AcmeWithStaticCert { addr } => {
                let mut m = String::from_str("listener ");
                m.append(addr.as_str());
                m.append(": acme is mutually exclusive with tls_cert/tls_key");
                m
            },
            ConfigError::AcmeWithClientCa { addr } => {
                let mut m = String::from_str("listener ");
                m.append(addr.as_str());
                m.append(": acme combined with tls_client_ca (mTLS) is not supported yet");
                m
            },
            ConfigError::AcmeWithoutDomains { addr } => {
                let mut m = String::from_str("listener ");
                m.append(addr.as_str());
                m.append(": acme.domains must list at least one domain");
                m
            },
            ConfigError::InvalidAcmeDirectoryUrl { addr, url } => {
                let mut m = String::from_str("listener ");
                m.append(addr.as_str());
                m.append(": invalid acme.directory_url: ");
                match uri_error(url.as_str()) {
                    Some(cause) => m.append(cause.as_str()),
                    None => {},
                }
                m
            },
            ConfigError::AcmeNotBuilt { addr } => {
                let mut m = String::from_str("listener ");
                m.append(addr.as_str());
                m.append(": acme is set but this build was compiled without --features acme");
                m
            },
            ConfigError::HttpsWithoutCert { addr } => {
                let mut m = String::from_str("HTTPS listener ");
                m.append(addr.as_str());
                m.append(" requires tls_cert and tls_key (or an acme block)");
                m
            },
            ConfigError::UnsupportedProtocol { protocol } => {
                let mut m = String::from_str("Unsupported listener protocol '");
                m.append(protocol.as_str());
                m.append("' (expected \"http\" or \"https\")");
                m
            },
            ConfigError::ClientCaRequiresHttps { addr } => {
                let mut m = String::from_str("listener ");
                m.append(addr.as_str());
                m.append(": tls_client_ca requires protocol = \"https\"");
                m
            },
            ConfigError::NoUpstreams { route } => {
                let mut m = String::from_str("Route '");
                m.append(route.as_str());
                m.append("' has no upstreams");
                m
            },
            ConfigError::PathWithoutSlash { route, path } => {
                let mut m = String::from_str("Route '");
                m.append(route.as_str());
                m.append("': path '");
                m.append(path.as_str());
                m.append("' must start with '/'");
                m
            },
            ConfigError::HttpsUpstream { route, upstream } => {
                let mut m = String::from_str("Route '");
                m.append(route.as_str());
                m.append("': upstream '");
                m.append(upstream.as_str());
                m.append("' uses https:// but TLS to upstreams is not implemented yet; use an http:// upstream");
                m
            },
            ConfigError::WeightTooHigh { route, upstream, weight } => {
                let mut m = String::from_str("Route '");
                m.append(route.as_str());
                m.append("': upstream '");
                m.append(upstream.as_str());
                m.append("' weight ");
                let n = decimal_string(*weight as u64);
                m.append(n.as_str());
                m.append(" exceeds the maximum of 10000");
                m
            },
            ConfigError::InvalidUpstream { route, upstream, cause } => {
                let mut m = String::from_str("Route '");
                m.append(route.as_str());
                m.append("': invalid upstream '");
                m.append(upstream.as_str());
                m.append("': ");
                let c = cause.describe(upstream.as_str());
                m.append(c.as_str());
                m
            },
            ConfigError::InvalidTimeoutTotal { route, value, cause } => {
                let mut m = String::from_str("Route '");
                m.append(route.as_str());
                m.append("': invalid timeout.total: ");
                let c = cause.describe(value.as_str());
                m.append(c.as_str());
                m
            },
            ConfigError::InvalidHealthInterval { route, value, cause } => {
                let mut m = String::from_str("Route '");
                m.append(route.as_str());
                m.append("': invalid health_check.interval: ");
                let c = cause.describe(value.as_str());
                m.append(c.as_str());
                m
            },
            ConfigError::InvalidHealthTimeout { route, value, cause } => {
                let mut m = String::from_str("Route '");
                m.append(route.as_str());
                m.append("': invalid health_check.timeout: ");
                let c = cause.describe(value.as_str());
                m.append(c.as_str());
                m
            },
            ConfigError::ZeroRetries { route } => {
                let mut m = String::from_str("Route '");
                m.append(route.as_str());
                m.append("': retries must be at least 1");
                m
            },
            ConfigError::PluginsNotBuilt { route } => {
                let mut m = String::from_str("Route '");
                m.append(route.as_str());
                m.append("': plugin is set but this build was compiled without --features plugins");
                m
            },
            ConfigError::InvalidMirrorAddr { route, addr, cause } => {
                let mut m = String::from_str("Route '");
                m.append(route.as_str());
                m.append("': invalid mirror.addr '");
                m.append(addr.as_str());
                m.append("': ");
                let c = cause.describe(addr.as_str());
                m.append(c.as_str());
                m
            },
            ConfigError::MirrorRateTooHigh { route, rate } => {
                let mut m = String::from_str("Route '");
                m.append(route.as_str());
                m.append("': mirror.rate must be 0-100, got ");
                let n = decimal_string(*rate as u64);
                m.append(n.as_str());
                m
            },
            ConfigError::InvalidHeaderName { route, name } => {
                let mut m = String::from_str("Route '");
                m.append(route.as_str());
                m.append("': invalid header name '");
                m.append(name.as_str());
                m.append("': invalid HTTP header name");
                m
            },
            ConfigError::InvalidHeaderValue { route, name } => {
                let mut m = String::from_str("Route '");
                m.append(route.as_str());
                m.append("': invalid header value for '");
                m.append(name.as_str());
                m.append("': failed to parse header value");
                m
            },
        }
    }
}

fn opt_duration_fits(s: &Option<String>) -> (r: bool)
    ensures
        r == opt_duration_in_range(*s),
{
    match s {
        Some(t) => duration_fits(t.as_str()),
        None => true,
    }
}

impl Config {
    /// Whether every duration in the configuration can be represented, which
    /// `validate` needs.
    #[verifier::rlimit(30)]
    pub fn durations_fit(&self) -> (r: bool)
        ensures
            r == durations_in_range(*self),
    {
        let mut i: usize = 0;
        while i < self.route.len()
            invariant
                i <= self.route@.len(),
                forall|j: int| 0 <= j < i ==> route_durations_in_range(#[trigger] self.route@[j]),
            decreases self.route@.len() - i,
        {
            let r = &self.route[i];
            let mut ok = opt_duration_fits(&r.timeout.total);
            if let Some(hc) = &r.health_check {
                ok = ok && opt_duration_fits(&hc.interval) && opt_duration_fits(&hc.timeout);
            }
            if !ok {
                return false;
            }
            i = i + 1;
        }
        true
    }
}


/// Warnings for one route, in the order they are reported.
pub open spec fn route_warnings(r: RouteConfig) -> Seq<ConfigWarning> {
    (if r.when is Some {
        seq![ConfigWarning::WhenIgnored { route: r.name }]
    } else {
        Seq::empty()
    }) + (if r.timeout.connect is Some || r.timeout.first_byte is Some {
        seq![ConfigWarning::TimeoutPartsIgnored { route: r.name }]
    } else {
        Seq::empty()
    })
}

/// Warnings for every route, route by route.
pub open spec fn config_warnings(routes: Seq<RouteConfig>) -> Seq<ConfigWarning>
    decreases routes.len(),
{
    if routes.len() == 0 {
        Seq::empty()
    } else {
        config_warnings(routes.drop_last()) + route_warnings(routes.last())
    }
}

impl ConfigWarning {
    pub open spec fn spec_message(&self) -> Seq<char> {
        match self {
            ConfigWarning::WhenIgnored { route } => "Route '"@ + route@ + "': 'when' expressions are not implemented yet and will be ignored"@,
            ConfigWarning::TimeoutPartsIgnored { route } => "Route '"@ + route@ + "': only timeout.total is enforced; connect/first_byte are ignored"@,
        }
    }

    /// The human-readable text of this warning.
    pub fn message(&self) -> (m: String)
        ensures
            m@ == self.spec_message(),
    {
        match self {
            ConfigWarning::WhenIgnored { route } => {
                let mut m = String::from_str("Route '");
                m.append(route.as_str());
                m.append("': 'when' expressions are not implemented yet and will be ignored");
                m
            },
            ConfigWarning::TimeoutPartsIgnored { route } => {
                let mut m = String::from_str("Route '");
                m.append(route.as_str());
                m.append("': only timeout.total is enforced; connect/first_byte are ignored");
                m
            },
        }
    }
}

impl Config {
    /// Settings that are accepted but have no effect, one warning each.
    pub fn warnings(&self) -> (w: Vec<ConfigWarning>)
        ensures
            w@ == config_warnings(self.route@),
    {
        let mut w: Vec<ConfigWarning> = Vec::new();
        let mut i: usize = 0;
        while i < self.route.len()
            invariant
                i <= self.route@.len(),
                w@ == config_warnings(self.route@.take(i as int)),
            decreases self.route@.len() - i,
        {
            let r = &self.route[i];
            assert(self.route@.take(i + 1).drop_last() =~= self.route@.take(i as int));
            let ghost before = w@;
            if r.when.is_some() {
                w.push(ConfigWarning::WhenIgnored { route: r.name.clone() });
            }
            if r.timeout.connect.is_some() || r.timeout.first_byte.is_some() {
                w.push(ConfigWarning::TimeoutPartsIgnored { route: r.name.clone() });
            }
            assert(w@ =~= before + route_warnings(*r));
            i = i + 1;
        }
        assert(self.route@.take(i as int) =~= self.route@);
        w
    }
}

/// In a route list that passes the route checks, every route passes them.
#[verifier::spinoff_prover]
pub proof fn lemma_route_ok_at(rs: Seq<RouteConfig>, f: BuildFeatures, i: int)
    requires
        first_route_error(rs, f) is None,
        0 <= i < rs.len(),
    ensures
        route_error(rs[i], f) is None,
    decreases rs.len(),
{
    let prev = first_route_error(rs.drop_last(), f);
    assert(first_route_error(rs, f) == match prev {
        Some(e) => Some(e),
        None => route_error(rs.last(), f),
    });
    if i < rs.len() - 1 {
        assert(rs.drop_last()[i] == rs[i]);
        lemma_route_ok_at(rs.drop_last(), f, i);
    }
}

/// In a listener list that passes the listener checks, every listener
/// passes them.
pub proof fn lemma_listener_ok_at(ls: Seq<ListenerConfig>, f: BuildFeatures, i: int)
    requires
        first_listener_error(ls, f) is None,
        0 <= i < ls.len(),
    ensures
        listener_error(ls[i], f) is None,
    decreases ls.len(),
{
    if i < ls.len() - 1 {
        assert(ls.drop_last()[i] == ls[i]);
        lemma_listener_ok_at(ls.drop_last(), f, i);
    }
}

/// A configuration that validates has at least one listener and one
/// route, and every listener and every route in it passes its checks on
/// its own.
pub proof fn law_validated_config_elements(c: Config, f: BuildFeatures)
    requires
        config_error(c, f) is None,
    ensures
        c.listener@.len() > 0,
        c.route@.len() > 0,
        forall|i: int| 0 <= i < c.listener@.len() ==> #[trigger] listener_error(c.listener@[i], f) is None,
        forall|i: int| 0 <= i < c.route@.len() ==> #[trigger] route_error(c.route@[i], f) is None,
{
    assert forall|i: int| 0 <= i < c.listener@.len() implies #[trigger] listener_error(c.listener@[i], f) is None by {
        lemma_listener_ok_at(c.listener@, f, i);
    }
    assert forall|i: int| 0 <= i < c.route@.len() implies #[trigger] route_error(c.route@[i], f) is None by {
        lemma_route_ok_at(c.route@, f, i);
    }
}

/// In an upstream list that passes the upstream checks, every upstream
/// passes them.
pub proof fn lemma_upstream_ok_at(route: String, us: Seq<UpstreamConfig>, i: int)
    requires
        first_upstream_error(route, us) is None,
        0 <= i < us.len(),
    ensures
        upstream_error(route, us[i]) is None,
    decreases us.len(),
{
    if i < us.len() - 1 {
        assert(us.drop_last()[i] == us[i]);
        lemma_upstream_ok_at(route, us.drop_last(), i);
    }
}

/// A configuration that validates caps every upstream weight at 10,000, so
/// each balancer built from it has at most 10,000 schedule slots per
/// upstream.
pub proof fn law_validated_schedules_bounded(c: Config, f: BuildFeatures, i: int)
    requires
        config_error(c, f) is None,
        0 <= i < c.route@.len(),
    ensures
        spec_schedule(route_pools(c.route@[i])).len() <= 10000 * c.route@[i].upstream@.len(),
{
    let r = c.route@[i];
    lemma_route_ok_at(c.route@, f, i);
    assert(first_upstream_error(r.name, r.upstream@) is None);
    let ups = route_pools(r);
    assert forall|k: int| 0 <= k < ups.len() implies (#[trigger] ups[k]).1 <= 10000 by {
        lemma_upstream_ok_at(r.name, r.upstream@, k);
    }
    lemma_schedule_bounded(ups, 10000);
}

/// Every duration of a configuration that validates can be represented.
pub proof fn lemma_validated_durations_in_range(c: Config, f: BuildFeatures)
    requires
        config_error(c, f) is None,
    ensures
        durations_in_range(c),
{
    assert forall|i: int| 0 <= i < c.route@.len() implies route_durations_in_range(#[trigger] c.route@[i]) by {
        lemma_route_ok_at(c.route@, f, i);
        let r = c.route@[i];
        if let Some(hc) = r.health_check {
            assert(health_check_error(r.name, hc) is None);
        }
    }
}

/// Which listeners pass their checks without ACME: a plain `http`
/// listener with a parseable address and neither ACME nor a client CA, and
/// an `https` listener with a parseable address and both a certificate and
/// a key, with or without a client CA (mTLS). An `https` listener without
/// ACME that lacks the certificate or the key is refused for that.
pub proof fn law_static_listeners_accepted(l: ListenerConfig, f: BuildFeatures)
    requires
        spec_socket_addr_parses(l.addr@),
        l.acme is None,
    ensures
        (l.protocol@ == "https"@ && l.tls_cert is Some && l.tls_key is Some) ==> listener_error(l, f) is None,
        (l.protocol@ == "https"@ && (l.tls_cert is None || l.tls_key is None)) ==> listener_error(l, f)
            == Some(ConfigError::HttpsWithoutCert { addr: l.addr }),
        (l.protocol@ == "http"@ && l.tls_client_ca is None) ==> listener_error(l, f) is None,
{
    reveal_strlit("http");
    reveal_strlit("https");
    assert("http"@ != "https"@) by {
        assert("http"@.len() != "https"@.len());
    }
}

} // verus!

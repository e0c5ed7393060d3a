//! Health state of upstreams, as active health checks report it.
use vstd::prelude::*;
use vstd::string::StringExecFns;
use std::time::Duration;
use crate::config::{
    duration_from_secs, duration_result, spec_duration_from_secs, Config, HealthCheckConfig, RouteConfig,
    UpstreamConfig,
};
use crate::proxy::{spec_upstream_host_port, upstream_host_port};
use crate::text::{chars_of, is_unicode_whitespace, is_whitespace_char, parse_unsigned, spec_parse_unsigned, str_eq};
use crate::validate::{durations_in_range, route_durations_in_range};

verus! {

/// Health of `addr` in a registry state: untracked addresses count as
/// healthy, so routes without health checks keep every upstream in play.
pub open spec fn health_of(m: Map<Seq<char>, bool>, addr: Seq<char>) -> bool {
    if m.dom().contains(addr) {
        m[addr]
    } else {
        true
    }
}

/// The registry state that a list of `(address, healthy)` entries denotes;
/// a later entry for the same address wins.
pub open spec fn entries_map(s: Seq<(String, bool)>) -> Map<Seq<char>, bool>
    decreases s.len(),
{
    if s.len() == 0 {
        Map::empty()
    } else {
        entries_map(s.drop_last()).insert(s.last().0@, s.last().1)
    }
}

/// Shared health state for upstreams, keyed by address. An upstream with no
/// active health check configured is simply never inserted here, and reads
/// as healthy.
#[derive(Debug, Clone)]
pub struct HealthRegistry {
    state: Vec<(String, bool)>,
}

impl View for HealthRegistry {
    type V = Map<Seq<char>, bool>;

    closed spec fn view(&self) -> Map<Seq<char>, bool> {
        entries_map(self.state@)
    }
}

proof fn lemma_entries_map_last(s: Seq<(String, bool)>, i: int)
    requires
        0 <= i < s.len(),
        forall|j: int| i < j < s.len() ==> (#[trigger] s[j]).0@ != s[i].0@,
    ensures
        entries_map(s).dom().contains(s[i].0@),
        entries_map(s)[s[i].0@] == s[i].1,
    decreases s.len(),
{
    if i < s.len() - 1 {
        let t = s.drop_last();
        assert forall|j: int| i < j < t.len() implies (#[trigger] t[j]).0@ != t[i].0@ by {
            assert(t[j] == s[j]);
        }
        lemma_entries_map_last(t, i);
    }
}

proof fn lemma_entries_map_absent(s: Seq<(String, bool)>, k: Seq<char>)
    requires
        forall|j: int| 0 <= j < s.len() ==> (#[trigger] s[j]).0@ != k,
    ensures
        !entries_map(s).dom().contains(k),
    decreases s.len(),
{
    if s.len() > 0 {
        lemma_entries_map_absent(s.drop_last(), k);
    }
}

proof fn lemma_entries_map_update(s: Seq<(String, bool)>, i: int, v: bool)
    requires
        0 <= i < s.len(),
    ensures
        entries_map(s.update(i, (s[i].0, v))) =~= entries_map(s).insert(s[i].0@, v) || exists|j: int|
            i < j < s.len() && (#[trigger] s[j]).0@ == s[i].0@,
    decreases s.len(),
{
    let t = s.update(i, (s[i].0, v));
    if i == s.len() - 1 {
        assert(t.drop_last() =~= s.drop_last());
    } else {
        lemma_entries_map_update(s.drop_last(), i, v);
        assert(t.drop_last() =~= s.drop_last().update(i, (s[i].0, v)));
        if s.last().0@ == s[i].0@ {
            assert(s[s.len() - 1].0@ == s[i].0@);
        } else if exists|j: int| i < j < s.len() - 1 && (#[trigger] s.drop_last()[j]).0@ == s.drop_last()[i].0@ {
            let j = choose|j: int| i < j < s.len() - 1 && (#[trigger] s.drop_last()[j]).0@ == s.drop_last()[i].0@;
            assert(s[j] == s.drop_last()[j]);
        }
    }
}

impl HealthRegistry {
    pub fn new() -> (r: Self)
        ensures
            r@ == Map::<Seq<char>, bool>::empty(),
    {
        HealthRegistry { state: Vec::new() }
    }

    /// Index of the last entry for `addr`.
    fn find(&self, addr: &str) -> (r: Option<usize>)
        ensures
            match r {
                Some(i) => i < self.state@.len() && self.state@[i as int].0@ == addr@ && forall|j: int|
                    i < j < self.state@.len() ==> (#[trigger] self.state@[j]).0@ != addr@,
                None => forall|j: int| 0 <= j < self.state@.len() ==> (#[trigger] self.state@[j]).0@ != addr@,
            },
    {
        let mut i = self.state.len();
        while i > 0
            invariant
                i <= self.state@.len(),
                forall|j: int| i <= j < self.state@.len() ==> (#[trigger] self.state@[j]).0@ != addr@,
            decreases i,
        {
            if str_eq(self.state[i - 1].0.as_str(), addr) {
                return Some(i - 1);
            }
            i = i - 1;
        }
        None
    }

    pub fn is_healthy(&self, addr: &str) -> (r: bool)
        ensures
            r == health_of(self@, addr@),
    {
        match self.find(addr) {
            Some(i) => {
                proof {
                    lemma_entries_map_last(self.state@, i as int);
                }
                self.state[i].1
            },
            None => {
                proof {
                    lemma_entries_map_absent(self.state@, addr@);
                }
                true
            },
        }
    }

    /// Record a probe result for `addr`.
    pub fn set(&mut self, addr: &str, healthy: bool)
        ensures
            final(self)@ == old(self)@.insert(addr@, healthy),
    {
        match self.find(addr) {
            Some(i) => {
                let ghost s = self.state@;
                let name = self.state[i].0.clone();
                self.state.set(i, (name, healthy));
                proof {
                    lemma_entries_map_update(s, i as int, healthy);
                    assert(self.state@ == s.update(i as int, (s[i as int].0, healthy)));
                }
            },
            None => {
                let ghost s = self.state@;
                self.state.push((addr.to_owned(), healthy));
                assert(self.state@.drop_last() =~= s);
            },
        }
    }
}

/// Reading an address back after recording its health gives what was
/// recorded, and recording one address leaves every other address as it
/// was.
pub proof fn law_health_read_after_set(m: Map<Seq<char>, bool>, addr: Seq<char>, healthy: bool, other: Seq<char>)
    ensures
        health_of(m.insert(addr, healthy), addr) == healthy,
        other != addr ==> health_of(m.insert(addr, healthy), other) == health_of(m, other),
        health_of(Map::<Seq<char>, bool>::empty(), addr),
{
}


/// Index of the first non-whitespace character at or after `i`.
pub open spec fn skip_ws(s: Seq<char>, i: int) -> int
    decreases s.len() - i,
{
    if 0 <= i < s.len() && is_unicode_whitespace(s[i]) {
        skip_ws(s, i + 1)
    } else {
        i
    }
}

/// Index of the first whitespace character at or after `i`.
pub open spec fn skip_word(s: Seq<char>, i: int) -> int
    decreases s.len() - i,
{
    if 0 <= i < s.len() && !is_unicode_whitespace(s[i]) {
        skip_word(s, i + 1)
    } else {
        i
    }
}

/// `s.split_whitespace().nth(1)`: the second whitespace-separated word.
pub open spec fn second_word(s: Seq<char>) -> Option<Seq<char>> {
    let a0 = skip_ws(s, 0);
    let a1 = skip_ws(s, skip_word(s, a0));
    if a1 < s.len() {
        Some(s.subrange(a1, skip_word(s, a1)))
    } else {
        None
    }
}

/// Status code in a response head such as `HTTP/1.1 200 OK`: the second
/// word read as a `u16`, or 0 when there is none.
pub open spec fn spec_probe_status(head: Seq<char>) -> u16 {
    match second_word(head) {
        Some(w) => match spec_parse_unsigned(w, 65535) {
            Some(n) => n as u16,
            None => 0,
        },
        None => 0,
    }
}

/// A probe passes on any real status below 500: a 404 still shows that
/// the upstream is up and answering.
pub open spec fn status_healthy(status: u16) -> bool {
    status != 0 && status < 500
}

/// The request a probe writes to the upstream.
pub open spec fn spec_probe_request(path: Seq<char>, host: Seq<char>) -> Seq<char> {
    "GET "@ + path + " HTTP/1.1\r\nHost: "@ + host + "\r\nConnection: close\r\n\r\n"@
}

proof fn lemma_skip_ws_bounds(s: Seq<char>, i: int)
    requires
        0 <= i <= s.len(),
    ensures
        i <= skip_ws(s, i) <= s.len(),
    decreases s.len() - i,
{
    if i < s.len() && is_unicode_whitespace(s[i]) {
        lemma_skip_ws_bounds(s, i + 1);
    }
}

proof fn lemma_skip_word_bounds(s: Seq<char>, i: int)
    requires
        0 <= i <= s.len(),
    ensures
        i <= skip_word(s, i) <= s.len(),
    decreases s.len() - i,
{
    if i < s.len() && !is_unicode_whitespace(s[i]) {
        lemma_skip_word_bounds(s, i + 1);
    }
}

fn skip_ws_at(v: &Vec<char>, i: usize, hi: usize) -> (r: usize)
    requires
        i <= hi <= v@.len(),
    ensures
        r == skip_ws(v@.take(hi as int), i as int),
        i <= r <= hi,
{
    let ghost s = v@.take(hi as int);
    let mut k = i;
    while k < hi && is_whitespace_char(v[k])
        invariant
            i <= k <= hi <= v@.len(),
            s == v@.take(hi as int),
            skip_ws(s, k as int) == skip_ws(s, i as int),
        decreases hi - k,
    {
        assert(s[k as int] == v@[k as int]);
        k = k + 1;
    }
    if k < hi {
        assert(s[k as int] == v@[k as int]);
    }
    k
}

fn skip_word_at(v: &Vec<char>, i: usize, hi: usize) -> (r: usize)
    requires
        i <= hi <= v@.len(),
    ensures
        r == skip_word(v@.take(hi as int), i as int),
        i <= r <= hi,
{
    let ghost s = v@.take(hi as int);
    let mut k = i;
    while k < hi && !is_whitespace_char(v[k])
        invariant
            i <= k <= hi <= v@.len(),
            s == v@.take(hi as int),
            skip_word(s, k as int) == skip_word(s, i as int),
        decreases hi - k,
    {
        assert(s[k as int] == v@[k as int]);
        k = k + 1;
    }
    if k < hi {
        assert(s[k as int] == v@[k as int]);
    }
    k
}

/// Bounds of the second whitespace-separated word of `v[..hi]`.
pub fn second_word_bounds(v: &Vec<char>, hi: usize) -> (r: Option<(usize, usize)>)
    requires
        hi <= v@.len(),
    ensures
        match second_word(v@.take(hi as int)) {
            Some(w) => r matches Some(b) && b.0 <= b.1 <= hi && v@.subrange(b.0 as int, b.1 as int) == w,
            None => r is None,
        },
{
    let ghost s = v@.take(hi as int);
    let a0 = skip_ws_at(v, 0, hi);
    let e0 = skip_word_at(v, a0, hi);
    let a1 = skip_ws_at(v, e0, hi);
    if a1 < hi {
        let e1 = skip_word_at(v, a1, hi);
        assert(s.subrange(a1 as int, e1 as int) =~= v@.subrange(a1 as int, e1 as int));
        Some((a1, e1))
    } else {
        None
    }
}

/// The status code a probe read from the start of a response.
pub fn probe_status(head: &str) -> (s: u16)
    ensures
        s == spec_probe_status(head@),
{
    let v = chars_of(head);
    assert(v@.take(v@.len() as int) =~= v@);
    match second_word_bounds(&v, v.len()) {
        Some((a, b)) => match parse_unsigned(&v, a, b, 65535) {
            Some(n) => n as u16,
            None => 0,
        },
        None => 0,
    }
}

/// Whether a probe that read `head` from the upstream passes.
pub fn probe_passes(head: &str) -> (r: bool)
    ensures
        r == status_healthy(spec_probe_status(head@)),
{
    let s = probe_status(head);
    s != 0 && s < 500
}

/// Where and what a probe of `addr` sends: the host and port to connect
/// to and the request text. `None` when `addr` has no usable host or
/// port, which counts as a failed probe.
pub fn probe_target(addr: &str, path: &str) -> (r: Option<(String, u16, String)>)
    ensures
        match spec_upstream_host_port(addr@) {
            Ok((host, port)) => r matches Some(t) && t.0@ == host && t.1 == port
                && t.2@ == spec_probe_request(path@, host),
            Err(_) => r is None,
        },
{
    match upstream_host_port(addr) {
        Ok((host, port)) => {
            let mut req = String::from_str("GET ");
            req.append(path);
            req.append(" HTTP/1.1\r\nHost: ");
            req.append(host.as_str());
            req.append("\r\nConnection: close\r\n\r\n");
            Some((host, port, req))
        },
        Err(_) => None,
    }
}

/// One background prober: the upstream it watches and how.
#[derive(Debug)]
pub struct ProberSpec {
    pub addr: String,
    pub path: String,
    pub interval: Duration,
    pub timeout: Duration,
}

/// Probe interval of a health check; an unusable setting falls back to 10s.
pub open spec fn probe_interval(hc: HealthCheckConfig) -> Duration {
    match hc.interval {
        Some(t) => match duration_result(t@) {
            Ok(d) => d,
            Err(_) => spec_duration_from_secs(10),
        },
        None => spec_duration_from_secs(10),
    }
}

/// Probe timeout of a health check; an unusable setting falls back to 2s.
pub open spec fn probe_timeout(hc: HealthCheckConfig) -> Duration {
    match hc.timeout {
        Some(t) => match duration_result(t@) {
            Ok(d) => d,
            Err(_) => spec_duration_from_secs(2),
        },
        None => spec_duration_from_secs(2),
    }
}

pub open spec fn probe_path(hc: HealthCheckConfig) -> Seq<char> {
    match hc.path {
        Some(p) => p@,
        None => "/"@,
    }
}

/// The probers of one route: one per upstream when the route has a health
/// check, none otherwise.
pub open spec fn route_probers(r: RouteConfig) -> Seq<(Seq<char>, Seq<char>, Duration, Duration)> {
    match r.health_check {
        Some(hc) => r.upstream@.map_values(|u: UpstreamConfig| (u.addr@, probe_path(hc), probe_interval(hc), probe_timeout(hc))),
        None => Seq::empty(),
    }
}

/// The probers of every route, route by route.
pub open spec fn config_probers(routes: Seq<RouteConfig>) -> Seq<(Seq<char>, Seq<char>, Duration, Duration)>
    decreases routes.len(),
{
    if routes.len() == 0 {
        Seq::empty()
    } else {
        config_probers(routes.drop_last()) + route_probers(routes.last())
    }
}

pub open spec fn probers_view(v: Seq<ProberSpec>) -> Seq<(Seq<char>, Seq<char>, Duration, Duration)> {
    v.map_values(|p: ProberSpec| (p.addr@, p.path@, p.interval, p.timeout))
}

/// One prober for every upstream on every route that opts into
/// `health_check`, in route order.
#[verifier::rlimit(40)]
pub fn prober_specs(config: &Config) -> (r: Vec<ProberSpec>)
    requires
        durations_in_range(*config),
    ensures
        probers_view(r@) == config_probers(config.route@),
{
    let mut out: Vec<ProberSpec> = Vec::new();
    let mut i: usize = 0;
    while i < config.route.len()
        invariant
            i <= config.route@.len(),
            durations_in_range(*config),
            probers_view(out@) == config_probers(config.route@.take(i as int)),
        decreases config.route@.len() - i,
    {
        let route = &config.route[i];
        assert(config.route@.take(i + 1).drop_last() =~= config.route@.take(i as int));
        assert(route_durations_in_range(config.route@[i as int]));
        if let Some(hc) = &route.health_check {
            let interval = match hc.interval_duration() {
                Ok(d) => d,
                Err(_) => duration_from_secs(10),
            };
            let timeout = match hc.timeout_duration() {
                Ok(d) => d,
                Err(_) => duration_from_secs(2),
            };
            let path = hc.path();
            let ghost before = out@;
            let mut j: usize = 0;
            while j < route.upstream.len()
                invariant
                    j <= route.upstream@.len(),
                    route.health_check == Some(*hc),
                    interval == probe_interval(*hc),
                    timeout == probe_timeout(*hc),
                    path@ == probe_path(*hc),
                    probers_view(out@) == probers_view(before) + route_probers(*route).take(j as int),
                decreases route.upstream@.len() - j,
            {
                let ghost prev = out@;
                let ghost el = (route.upstream@[j as int].addr@, probe_path(*hc), interval, timeout);
                assert(route_probers(*route)[j as int] == el);
                out.push(ProberSpec {
                    addr: route.upstream[j].addr.clone(),
                    path: path.to_owned(),
                    interval,
                    timeout,
                });
                assert(probers_view(out@) =~= probers_view(prev).push(el));
                assert(route_probers(*route).take(j + 1) =~= route_probers(*route).take(j as int).push(route_probers(*route)[j as int]));
                assert(probers_view(out@) =~= probers_view(before) + route_probers(*route).take(j + 1));
                j = j + 1;
            }
            assert(route_probers(*route).take(j as int) =~= route_probers(*route));
        } else {
            assert(route_probers(*route) =~= Seq::empty());
            assert(probers_view(out@) =~= probers_view(out@) + route_probers(*route));
        }
        i = i + 1;
    }
    assert(config.route@.take(i as int) =~= config.route@);
    out
}

/// A probe passes exactly on a status in 1..=499: every 5xx status (and
/// anything from 500 up) fails, as does a response without a status.
pub proof fn law_probe_status_classes(s: u16)
    ensures
        500 <= s ==> !status_healthy(s),
        1 <= s < 500 ==> status_healthy(s),
        !status_healthy(0),
{
}

/// A probe answered with a head whose status is 500 or above, or whose
/// status cannot be read, fails; one whose status is in 1..=499 passes.
pub proof fn law_probe_passes_by_status(head: Seq<char>)
    ensures
        spec_probe_status(head) >= 500 ==> !status_healthy(spec_probe_status(head)),
        1 <= spec_probe_status(head) < 500 ==> status_healthy(spec_probe_status(head)),
{
    law_probe_status_classes(spec_probe_status(head));
}

/// A health check without settings probes `/` every 10 seconds with a
/// 2-second timeout, and a setting that does not parse falls back to those.
pub proof fn law_health_check_defaults(hc: HealthCheckConfig)
    ensures
        hc.path is None ==> probe_path(hc) == "/"@,
        hc.path matches Some(p) ==> probe_path(hc) == p@,
        (hc.interval is None || duration_result(hc.interval->Some_0@) is Err) ==> probe_interval(hc)
            == spec_duration_from_secs(10),
        (hc.timeout is None || duration_result(hc.timeout->Some_0@) is Err) ==> probe_timeout(hc)
            == spec_duration_from_secs(2),
        hc.interval is Some && duration_result(hc.interval->Some_0@) is Ok ==> probe_interval(hc)
            == duration_result(hc.interval->Some_0@)->Ok_0,
        hc.timeout is Some && duration_result(hc.timeout->Some_0@) is Ok ==> probe_timeout(hc)
            == duration_result(hc.timeout->Some_0@)->Ok_0,
{
}

} // verus!

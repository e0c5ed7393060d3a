//! The proxy's configuration model, duration parsing, and the defaults that
//! the rest of the engine reads from it.
use vstd::prelude::*;
use vstd::string::StringExecFns;
use std::time::Duration;
use crate::text::{
    all_digits, chars_of, is_digit, parse_unsigned, spec_parse_unsigned, spec_trim, trim_bounds,
};

verus! {

#[derive(Debug, Clone)]
pub struct Config {
    pub global: GlobalConfig,
    pub listener: Vec<ListenerConfig>,
    pub route: Vec<RouteConfig>,
}

#[derive(Debug, Clone)]
pub struct GlobalConfig {
    pub workers: Option<String>,
    /// "json" or "text"
    pub log_format: Option<String>,
    /// "info", "debug", "warn"
    pub log_level: Option<String>,
    /// "127.0.0.1:9090"
    pub metrics_addr: Option<String>,
}

#[derive(Debug, Clone)]
pub struct ListenerConfig {
    pub addr: String,
    /// "http" or "https"
    pub protocol: String,
    pub tls_cert: Option<String>,
    pub tls_key: Option<String>,
    pub tls_client_ca: Option<String>,
    /// Automatic HTTPS via ACME (RFC 8555), instead of a static
    /// tls_cert/tls_key pair. Not combinable with tls_client_ca (mTLS).
    pub acme: Option<AutoTlsConfig>,
}

#[derive(Debug, Clone)]
pub struct AutoTlsConfig {
    pub domains: Vec<String>,
    pub contact_emails: Option<Vec<String>>,
    /// Where issued certificates/account keys are cached. Default
    /// "./acme-cache".
    pub cache_dir: Option<String>,
    /// Overrides the ACME directory URL entirely. Takes priority over
    /// `staging` when both are set.
    pub directory_url: Option<String>,
    /// Use Let's Encrypt's staging directory instead of production.
    /// Default false.
    pub staging: Option<bool>,
    /// Trust this CA (PEM) when connecting to the ACME directory itself.
    pub ca_cert: Option<String>,
}

#[derive(Debug, Clone)]
pub struct RouteConfig {
    pub name: String,
    /// Exact hostname match against the request's Host header (port
    /// stripped). A leading "*." matches that domain and all subdomains.
    /// `None` matches any host.
    pub host: Option<String>,
    /// Path prefix match, on segment boundaries ("/api" matches "/api" and
    /// "/api/v1" but not "/apiary"). `None` matches any path.
    pub path: Option<String>,
    /// Reserved for a future expression matcher; ignored.
    pub when: Option<String>,
    pub upstream: Vec<UpstreamConfig>,
    pub mirror: Option<MirrorConfig>,
    pub timeout: TimeoutConfig,
    pub headers: HeaderConfig,
    pub health_check: Option<HealthCheckConfig>,
    /// Max total attempts (including the first) across different upstreams
    /// when a connection to an upstream fails outright. Defaults to 2 when
    /// the route has more than one upstream, 1 otherwise.
    pub retries: Option<u32>,
    /// Path to a sandboxed WASM request filter, evaluated before proxying.
    pub plugin: Option<String>,
}

#[derive(Debug, Clone)]
pub struct UpstreamConfig {
    pub addr: String,
    pub weight: Option<u32>,
}

#[derive(Debug, Clone)]
pub struct MirrorConfig {
    pub addr: String,
    pub rate: Option<u32>,
}

#[derive(Debug, Clone)]
pub struct TimeoutConfig {
    pub connect: Option<String>,
    pub first_byte: Option<String>,
    pub total: Option<String>,
}

impl Default for TimeoutConfig {
    fn default() -> (t: Self)
        ensures
            t.connect is None,
            t.first_byte is None,
            t.total is None,
    {
        TimeoutConfig { connect: None, first_byte: None, total: None }
    }
}

/// Header overrides per direction, as `(name, value)` pairs in the order
/// they were written; an empty value removes the header.
#[derive(Debug, Clone)]
pub struct HeaderConfig {
    pub request: Option<Vec<(String, String)>>,
    pub response: Option<Vec<(String, String)>>,
}

impl Default for HeaderConfig {
    fn default() -> (h: Self)
        ensures
            h.request is None,
            h.response is None,
    {
        HeaderConfig { request: None, response: None }
    }
}

/// Active health check for a route's upstreams. Absent means every upstream
/// is always considered healthy.
#[derive(Debug, Clone)]
pub struct HealthCheckConfig {
    /// HTTP path probed on each upstream. Default "/".
    pub path: Option<String>,
    /// How often to probe. Default "10s".
    pub interval: Option<String>,
    /// Per-probe timeout. Default "2s".
    pub timeout: Option<String>,
}

/// Why a duration such as "30s" was rejected.
#[derive(Debug, Clone, Copy, PartialEq, Eq, Structural)]
pub enum DurationError {
    /// Only digits: no unit follows the number.
    MissingUnit,
    /// No digits before the unit, or a number too large for `u64`.
    InvalidValue,
    /// The unit is not one of `ms`, `s`, `m`.
    UnknownUnit,
}

impl DurationError {
    pub open spec fn spec_message(&self) -> Seq<char> {
        match self {
            DurationError::MissingUnit => "duration is missing a unit (ms, s, m)"@,
            DurationError::InvalidValue => "invalid duration value"@,
            DurationError::UnknownUnit => "unknown duration unit (expected ms, s, m)"@,
        }
    }

    /// The human-readable text of this error.
    pub fn message(&self) -> (m: String)
        ensures
            m@ == self.spec_message(),
    {
        match self {
            DurationError::MissingUnit => String::from_str("duration is missing a unit (ms, s, m)"),
            DurationError::InvalidValue => String::from_str("invalid duration value"),
            DurationError::UnknownUnit => String::from_str("unknown duration unit (expected ms, s, m)"),
        }
    }

    /// The text of this error for the duration text `s`, quoting it as
    /// parsing saw it (trimmed) and, for an unknown unit, the unit.
    pub open spec fn spec_describe(&self, s: Seq<char>) -> Seq<char> {
        let t = spec_trim(s);
        match self {
            DurationError::MissingUnit => "Duration '"@ + t + "' is missing a unit (ms, s, m)"@,
            DurationError::InvalidValue => "Invalid duration value '"@ + t + "'"@,
            DurationError::UnknownUnit => "Unknown duration unit '"@ + unit_part(t) + "' in '"@ + t + "'"@,
        }
    }

    /// The human-readable text of this error for the duration text `s`.
    pub fn describe(&self, s: &str) -> (m: String)
        ensures
            m@ == self.spec_describe(s@),
    {
        let v = chars_of(s);
        let (lo, hi) = trim_bounds(&v, 0, v.len());
        assert(v@.subrange(0, v.len() as int) =~= s@);
        let t = s.substring_char(lo, hi);
        match self {
            DurationError::MissingUnit => {
                let mut m = String::from_str("Duration '");
                m.append(t);
                m.append("' is missing a unit (ms, s, m)");
                m
            },
            DurationError::InvalidValue => {
                let mut m = String::from_str("Invalid duration value '");
                m.append(t);
                m.append("'");
                m
            },
            DurationError::UnknownUnit => {
                let i = unit_start(&v, lo, hi);
                let unit = s.substring_char(i, hi);
                assert(unit@ =~= unit_part(t@));
                let mut m = String::from_str("Unknown duration unit '");
                m.append(unit);
                m.append("' in '");
                m.append(t);
                m.append("'");
                m
            },
        }
    }
}

#[derive(Debug, Clone, Copy, PartialEq, Eq, Structural)]
pub enum DurationUnit {
    Millis,
    Secs,
    Minutes,
}

/// The `Duration` that `Duration::from_millis` builds from its argument.
pub uninterp spec fn spec_duration_from_millis(ms: u64) -> Duration;

/// The `Duration` that `Duration::from_secs` builds from its argument.
pub uninterp spec fn spec_duration_from_secs(secs: u64) -> Duration;

/// `Duration::from_millis`.
#[verifier::external_body]
fn duration_from_millis(ms: u64) -> (d: Duration)
    ensures
        d == spec_duration_from_millis(ms),
{
    Duration::from_millis(ms)
}

/// `Duration::from_secs`.
#[verifier::external_body]
pub(crate) fn duration_from_secs(secs: u64) -> (d: Duration)
    ensures
        d == spec_duration_from_secs(secs),
{
    Duration::from_secs(secs)
}

/// Index of the first character that is not an ASCII digit.
pub open spec fn first_non_digit(s: Seq<char>) -> Option<int> {
    if exists|i: int| 0 <= i < s.len() && !is_digit(s[i]) {
        Some(choose|i: int| 0 <= i < s.len() && !is_digit(s[i]) && all_digits(s.take(i)))
    } else {
        None
    }
}

/// What follows the leading digits of `t`: the unit of a duration text.
pub open spec fn unit_part(t: Seq<char>) -> Seq<char> {
    match first_non_digit(t) {
        Some(i) => t.skip(i),
        None => Seq::empty(),
    }
}

/// Where the unit of `v[lo..hi]` starts: the first position that is not a
/// digit, or `hi`.
fn unit_start(v: &Vec<char>, lo: usize, hi: usize) -> (i: usize)
    requires
        lo <= hi <= v.len(),
    ensures
        lo <= i <= hi,
        v@.subrange(i as int, hi as int) == unit_part(v@.subrange(lo as int, hi as int)),
{
    let ghost t = v@.subrange(lo as int, hi as int);
    let mut i = lo;
    while i < hi && '0' <= v[i] && v[i] <= '9'
        invariant
            lo <= i <= hi <= v.len(),
            t == v@.subrange(lo as int, hi as int),
            all_digits(t.take(i - lo)),
        decreases hi - i,
    {
        proof {
            assert(t.take(i + 1 - lo).drop_last() =~= t.take(i - lo));
            assert(t[i - lo] == v@[i as int]);
        }
        i = i + 1;
    }
    if i == hi {
        assert(t.take(i - lo) =~= t);
        assert(!exists|j: int| 0 <= j < t.len() && !is_digit(t[j]));
        assert(v@.subrange(i as int, hi as int) =~= Seq::<char>::empty());
        return i;
    }
    proof {
        let k = i - lo;
        assert(t[k] == v@[i as int]);
        assert(!is_digit(t[k]));
        let c = choose|j: int| 0 <= j < t.len() && !is_digit(t[j]) && all_digits(t.take(j));
        assert(0 <= c < t.len() && !is_digit(t[c]) && all_digits(t.take(c)));
        if c < k {
            assert(t.take(k)[c] == t[c]);
        }
        if k < c {
            assert(t.take(c)[k] == t[k]);
        }
        assert(first_non_digit(t) == Some(k));
        assert(t.skip(k) =~= v@.subrange(i as int, hi as int));
    }
    i
}

pub open spec fn unit_ms() -> Seq<char> {
    seq!['m', 's']
}

pub open spec fn unit_s() -> Seq<char> {
    seq!['s']
}

pub open spec fn unit_m() -> Seq<char> {
    seq!['m']
}

/// Number and unit of a duration like "200ms", "30s", "5m" (surrounding
/// whitespace ignored).
pub open spec fn spec_parse_duration(s: Seq<char>) -> Result<(nat, DurationUnit), DurationError> {
    let t = spec_trim(s);
    match first_non_digit(t) {
        None => Err(DurationError::MissingUnit),
        Some(i) => match spec_parse_unsigned(t.take(i), u64::MAX as nat) {
            None => Err(DurationError::InvalidValue),
            Some(v) => {
                let unit = t.skip(i);
                if unit == unit_ms() {
                    Ok((v, DurationUnit::Millis))
                } else if unit == unit_s() {
                    Ok((v, DurationUnit::Secs))
                } else if unit == unit_m() {
                    Ok((v, DurationUnit::Minutes))
                } else {
                    Err(DurationError::UnknownUnit)
                }
            },
        },
    }
}

/// A minute count whose seconds overflow `u64` makes `parse_duration`
/// overflow; every other text is in range.
pub open spec fn duration_in_range(s: Seq<char>) -> bool {
    spec_parse_duration(s) matches Ok((v, DurationUnit::Minutes)) ==> v * 60 <= u64::MAX
}

pub open spec fn opt_duration_in_range(s: Option<String>) -> bool {
    s matches Some(t) ==> duration_in_range(t@)
}

/// The `Duration` (or error) that `parse_duration` yields for `s`.
pub open spec fn duration_result(s: Seq<char>) -> Result<Duration, DurationError> {
    match spec_parse_duration(s) {
        Ok((v, DurationUnit::Millis)) => Ok(spec_duration_from_millis(v as u64)),
        Ok((v, DurationUnit::Secs)) => Ok(spec_duration_from_secs(v as u64)),
        Ok((v, DurationUnit::Minutes)) => Ok(spec_duration_from_secs((v * 60) as u64)),
        Err(e) => Err(e),
    }
}

/// Number and unit of a duration like "200ms", "30s", "5m".
pub fn parse_duration_parts(s: &str) -> (r: Result<(u64, DurationUnit), DurationError>)
    ensures
        match r {
            Ok((v, u)) => spec_parse_duration(s@) == Ok::<(nat, DurationUnit), DurationError>((v as nat, u)),
            Err(e) => spec_parse_duration(s@) == Err::<(nat, DurationUnit), DurationError>(e),
        },
{
    let v = chars_of(s);
    let (lo, hi) = trim_bounds(&v, 0, v.len());
    assert(v@.subrange(0, v.len() as int) =~= s@);
    let ghost t = v@.subrange(lo as int, hi as int);
    let mut i = lo;
    while i < hi && '0' <= v[i] && v[i] <= '9'
        invariant
            lo <= i <= hi <= v.len(),
            t == v@.subrange(lo as int, hi as int),
            all_digits(t.take(i - lo)),
        decreases hi - i,
    {
        proof {
            assert(t.take(i + 1 - lo).drop_last() =~= t.take(i - lo));
            assert(t[i - lo] == v@[i as int]);
        }
        i = i + 1;
    }
    if i == hi {
        assert(t.take(i - lo) =~= t);
        assert(!exists|j: int| 0 <= j < t.len() && !is_digit(t[j]));
        return Err(DurationError::MissingUnit);
    }
    proof {
        let k = i - lo;
        assert(t[k] == v@[i as int]);
        assert(!is_digit(t[k]));
        let c = choose|j: int| 0 <= j < t.len() && !is_digit(t[j]) && all_digits(t.take(j));
        assert(0 <= c < t.len() && !is_digit(t[c]) && all_digits(t.take(c)));
        if c < k {
            assert(t.take(k)[c] == t[c]);
        }
        if k < c {
            assert(t.take(c)[k] == t[k]);
        }
        assert(first_non_digit(t) == Some(k));
        assert(t.take(k) =~= v@.subrange(lo as int, i as int));
    }
    let value = match parse_unsigned(&v, lo, i, u64::MAX) {
        Some(x) => x,
        None => {
            return Err(DurationError::InvalidValue);
        },
    };
    let ghost unit = t.skip(i - lo);
    assert(unit =~= v@.subrange(i as int, hi as int));
    let n = hi - i;
    if n == 2 && v[i] == 'm' && v[i + 1] == 's' {
        assert(unit =~= unit_ms());
        assert(t == spec_trim(s@));
        Ok((value, DurationUnit::Millis))
    } else if n == 1 && v[i] == 's' {
        assert(unit =~= unit_s());
        assert(unit_ms().len() == 2);
        assert(t == spec_trim(s@));
        Ok((value, DurationUnit::Secs))
    } else if n == 1 && v[i] == 'm' {
        assert(unit =~= unit_m());
        assert(t == spec_trim(s@));
        assert(unit_ms().len() == 2);
        assert(unit_s()[0] == 's');
        Ok((value, DurationUnit::Minutes))
    } else {
        proof {
            if unit == unit_ms() {
                assert(unit.len() == 2 && unit[0] == 'm' && unit[1] == 's');
            }
            if unit == unit_s() {
                assert(unit.len() == 1 && unit[0] == 's');
            }
            if unit == unit_m() {
                assert(unit.len() == 1 && unit[0] == 'm');
            }
        }
        Err(DurationError::UnknownUnit)
    }
}

/// Parse durations like "200ms", "30s", "5m".
pub fn parse_duration(s: &str) -> (r: Result<Duration, DurationError>)
    requires
        duration_in_range(s@),
    ensures
        r == duration_result(s@),
{
    match parse_duration_parts(s) {
        Ok((v, DurationUnit::Millis)) => Ok(duration_from_millis(v)),
        Ok((v, DurationUnit::Secs)) => Ok(duration_from_secs(v)),
        Ok((v, DurationUnit::Minutes)) => Ok(duration_from_secs(v * 60)),
        Err(e) => Err(e),
    }
}

/// Whether `parse_duration` can represent `s` (see `duration_in_range`).
pub fn duration_fits(s: &str) -> (r: bool)
    ensures
        r == duration_in_range(s@),
{
    match parse_duration_parts(s) {
        Ok((v, DurationUnit::Minutes)) => v <= u64::MAX / 60,
        _ => true,
    }
}

/// What a configured duration amounts to: `parse_duration`'s result, or
/// `InvalidValue` for one too large to represent.
pub open spec fn duration_check(s: Seq<char>) -> Result<Duration, DurationError> {
    if duration_in_range(s) {
        duration_result(s)
    } else {
        Err(DurationError::InvalidValue)
    }
}

/// Parse a configured duration, rejecting one too large to represent.
pub fn checked_duration(s: &str) -> (r: Result<Duration, DurationError>)
    ensures
        r == duration_check(s@),
{
    if duration_fits(s) {
        parse_duration(s)
    } else {
        Err(DurationError::InvalidValue)
    }
}

impl AutoTlsConfig {
    pub fn cache_dir(&self) -> (r: &str)
        ensures
            r@ == match self.cache_dir {
                Some(d) => d@,
                None => "./acme-cache"@,
            },
    {
        match &self.cache_dir {
            Some(d) => d.as_str(),
            None => "./acme-cache",
        }
    }
}

impl TimeoutConfig {
    /// Total request timeout (time until the upstream returns response
    /// headers). Invalid values are rejected during `validate`; here they
    /// read as unset.
    pub fn total_duration(&self) -> (r: Option<Duration>)
        requires
            opt_duration_in_range(self.total),
        ensures
            r == match self.total {
                Some(t) => match duration_result(t@) {
                    Ok(d) => Some(d),
                    Err(_) => None,
                },
                None => None,
            },
    {
        match &self.total {
            Some(t) => match parse_duration(t.as_str()) {
                Ok(d) => Some(d),
                Err(_) => None,
            },
            None => None,
        }
    }
}

impl HealthCheckConfig {
    pub fn path(&self) -> (r: &str)
        ensures
            r@ == match self.path {
                Some(p) => p@,
                None => "/"@,
            },
    {
        match &self.path {
            Some(p) => p.as_str(),
            None => "/",
        }
    }

    pub fn interval_duration(&self) -> (r: Result<Duration, DurationError>)
        requires
            opt_duration_in_range(self.interval),
        ensures
            r == match self.interval {
                Some(t) => duration_result(t@),
                None => Ok(spec_duration_from_secs(10)),
            },
    {
        match &self.interval {
            Some(t) => parse_duration(t.as_str()),
            None => Ok(duration_from_secs(10)),
        }
    }

    pub fn timeout_duration(&self) -> (r: Result<Duration, DurationError>)
        requires
            opt_duration_in_range(self.timeout),
        ensures
            r == match self.timeout {
                Some(t) => duration_result(t@),
                None => Ok(spec_duration_from_secs(2)),
            },
    {
        match &self.timeout {
            Some(t) => parse_duration(t.as_str()),
            None => Ok(duration_from_secs(2)),
        }
    }
}

/// Max total attempts across upstreams: `retries` (at least 1) when set,
/// else 2 for a route with several upstreams and 1 otherwise.
pub open spec fn spec_max_attempts(retries: Option<u32>, n_upstreams: nat) -> u32 {
    match retries {
        Some(n) => if n >= 1 { n } else { 1 },
        None => if n_upstreams > 1 { 2 } else { 1 },
    }
}

impl RouteConfig {
    /// Max total attempts across upstreams for this route.
    pub fn max_attempts(&self) -> (r: u32)
        ensures
            r == spec_max_attempts(self.retries, self.upstream@.len()),
            r >= 1,
    {
        match self.retries {
            Some(n) => if n >= 1 { n } else { 1 },
            None => if self.upstream.len() > 1 { 2 } else { 1 },
        }
    }
}

/// A duration that parses names its unit after the number: "ms" is
/// milliseconds, "s" seconds and "m" minutes, so "5m" lasts 300 seconds.
pub proof fn law_duration_units(s: Seq<char>)
    ensures
        spec_parse_duration(s) matches Ok((v, u)) ==> {
            &&& unit_part(spec_trim(s)) == match u {
                DurationUnit::Millis => "ms"@,
                DurationUnit::Secs => "s"@,
                DurationUnit::Minutes => "m"@,
            }
            &&& duration_result(s) == match u {
                DurationUnit::Millis => Ok::<Duration, DurationError>(spec_duration_from_millis(v as u64)),
                DurationUnit::Secs => Ok::<Duration, DurationError>(spec_duration_from_secs(v as u64)),
                DurationUnit::Minutes => Ok::<Duration, DurationError>(spec_duration_from_secs((60 * v) as u64)),
            }
        },
{
    reveal_strlit("ms");
    reveal_strlit("s");
    reveal_strlit("m");
    assert("ms"@ =~= unit_ms());
    assert("s"@ =~= unit_s());
    assert("m"@ =~= unit_m());
}

} // verus!

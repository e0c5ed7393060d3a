//! Upstream address parsing and the header rules a proxy must apply.
use vstd::prelude::*;
use vstd::string::StringExecFns;
use crate::text::{
    before_first, chars_of, find_first, find_last, last_index_of, lemma_first_index_of,
    lemma_last_index_of, parse_unsigned, seq_starts_with, spec_parse_unsigned,
    decimal_string, spec_decimal, lemma_decimal_digits, lemma_parse_decimal, first_index_of, is_digit,
};
use crate::headers::{
    fingerprint_header, first_value, lemma_first_value_absent, lemma_first_value_other, lemma_remove_all_absent,
    lemma_set_header_reads_back, push_all, remove_all, set_header, spec_append_forwarded, spec_forwarded_for,
    spec_set_fingerprint, spec_strip_hop_by_hop, HeaderList,
};
use crate::text::opt_str_view;
use crate::validate::{header_value_ok, header_value_parses, spec_uri_parses, uri_parses};
use vstd::utf8::encode_utf8;

verus! {


/// Why an upstream address could not be split into host and port.
#[derive(Debug, Clone, Copy, PartialEq, Eq, Structural)]
pub enum HostPortError {
    /// The text after the last `:` is not a port number.
    InvalidPort,
    /// Nothing precedes the port (or the address is empty).
    MissingHost,
}

impl HostPortError {
    pub open spec fn spec_message(&self) -> Seq<char> {
        match self {
            HostPortError::InvalidPort => "invalid port number"@,
            HostPortError::MissingHost => "could not extract a host"@,
        }
    }

    /// The human-readable text of this error.
    pub fn message(&self) -> (m: String)
        ensures
            m@ == self.spec_message(),
    {
        match self {
            HostPortError::InvalidPort => String::from_str("invalid port number"),
            HostPortError::MissingHost => String::from_str("could not extract a host"),
        }
    }

    /// The text of this error for the address `upstream`.
    pub open spec fn spec_describe(&self, upstream: Seq<char>) -> Seq<char> {
        match self {
            HostPortError::InvalidPort => "invalid port number"@,
            HostPortError::MissingHost => "Could not extract host from '"@ + upstream + "'"@,
        }
    }

    /// The human-readable text of this error for the address `upstream`.
    pub fn describe(&self, upstream: &str) -> (m: String)
        ensures
            m@ == self.spec_describe(upstream@),
    {
        match self {
            HostPortError::InvalidPort => String::from_str("invalid port number"),
            HostPortError::MissingHost => {
                let mut m = String::from_str("Could not extract host from '");
                m.append(upstream);
                m.append("'");
                m
            },
        }
    }
}

pub open spec fn http_scheme() -> Seq<char> {
    seq!['h', 't', 't', 'p', ':', '/', '/']
}

/// The `host[:port]` part of an upstream address: an optional `http://`
/// is dropped, and so is everything from the first `/` on.
pub open spec fn authority_of(u: Seq<char>) -> Seq<char> {
    let rest = if seq_starts_with(u, http_scheme()) {
        u.skip(7)
    } else {
        u
    };
    before_first(rest, '/')
}

/// Host and port of an upstream address such as `http://host:port/path`.
/// The port defaults to 80; the port is whatever follows the last `:`.
pub open spec fn spec_upstream_host_port(u: Seq<char>) -> Result<(Seq<char>, u16), HostPortError> {
    host_port_of_authority(authority_of(u))
}

pub open spec fn host_port_of_authority(rest: Seq<char>) -> Result<(Seq<char>, u16), HostPortError> {
    match last_index_of(rest, ':') {
        Some(i) => match spec_parse_unsigned(rest.skip(i + 1), 65535) {
            None => Err(HostPortError::InvalidPort),
            Some(p) => if i == 0 {
                Err(HostPortError::MissingHost)
            } else {
                Ok((rest.take(i), p as u16))
            },
        },
        None => if rest.len() == 0 {
            Err(HostPortError::MissingHost)
        } else {
            Ok((rest, 80u16))
        },
    }
}

/// Character bounds of `authority_of(v)` within `v`.
fn authority_bounds(v: &Vec<char>) -> (r: (usize, usize))
    ensures
        r.0 <= r.1 <= v.len(),
        v@.subrange(r.0 as int, r.1 as int) == authority_of(v@),
{
    let ghost u = v@;
    let n = v.len();
    let has_scheme = n >= 7 && v[0] == 'h' && v[1] == 't' && v[2] == 't' && v[3] == 'p' && v[4] == ':'
        && v[5] == '/' && v[6] == '/';
    proof {
        if has_scheme {
            assert(u.take(7) =~= http_scheme());
        } else if u.len() >= 7 {
            if u.take(7) == http_scheme() {
                assert(u.take(7)[0] == 'h');
                assert(u.take(7)[1] == 't');
                assert(u.take(7)[2] == 't');
                assert(u.take(7)[3] == 'p');
                assert(u.take(7)[4] == ':');
                assert(u.take(7)[5] == '/');
                assert(u.take(7)[6] == '/');
            }
        }
    }
    let start: usize = if has_scheme { 7 } else { 0 };
    let ghost rest = u.skip(start as int);
    assert(rest =~= (if seq_starts_with(u, http_scheme()) { u.skip(7) } else { u }));
    let end: usize = match find_first(v, start, n, '/') {
        Some(i) => {
            proof {
                lemma_first_index_of(rest, '/', i - start);
            }
            i
        },
        None => n,
    };
    assert(u.subrange(start as int, end as int) =~= authority_of(u));
    (start, end)
}

/// Split an upstream address like "http://host:port" into host and port.
#[verifier::rlimit(90)]
pub fn upstream_host_port(upstream: &str) -> (r: Result<(String, u16), HostPortError>)
    ensures
        match r {
            Ok((host, port)) => spec_upstream_host_port(upstream@) == Ok::<(Seq<char>, u16), HostPortError>((host@, port)),
            Err(e) => spec_upstream_host_port(upstream@) == Err::<(Seq<char>, u16), HostPortError>(e),
        },
{
    let v = chars_of(upstream);
    let ghost u = v@;
    let (start, end) = authority_bounds(&v);
    let ghost auth = u.subrange(start as int, end as int);
    assert(spec_upstream_host_port(upstream@) == host_port_of_authority(auth));
    match find_last(&v, start, end, ':') {
        Some(colon) => {
            let ghost i = colon - start;
            proof {
                lemma_last_index_of(auth, ':', i);
                assert(auth.skip(i + 1) =~= u.subrange(colon + 1, end as int));
            }
            let parsed = parse_unsigned(&v, colon + 1, end, 65535);
            match parsed {
                None => {
                    Err(HostPortError::InvalidPort)
                },
                Some(p) => {
                    if colon == start {
                        Err(HostPortError::MissingHost)
                    } else {
                        let host = upstream.substring_char(start, colon).to_owned();
                        assert(host@ =~= auth.take(i));
                        Ok((host, p as u16))
                    }
                },
            }
        },
        None => {
            if end == start {
                assert(auth.len() == 0);
                Err(HostPortError::MissingHost)
            } else {
                let host = upstream.substring_char(start, end).to_owned();
                assert(host@ =~= auth);
                Ok((host, 80))
            }
        },
    }
}


/// Why a request could not be addressed to an upstream.
#[derive(Debug, Clone, Copy, PartialEq, Eq, Structural)]
pub enum ProxyError {
    /// The upstream address has no usable host or port.
    HostPort(HostPortError),
    /// The absolute URI built for the upstream does not parse.
    InvalidUri,
    /// `host:port` is not a valid `Host` header value.
    InvalidHostHeader,
}

impl ProxyError {
    pub open spec fn spec_message(&self) -> Seq<char> {
        match self {
            ProxyError::HostPort(e) => e.spec_message(),
            ProxyError::InvalidUri => "invalid upstream URI"@,
            ProxyError::InvalidHostHeader => "invalid Host header value"@,
        }
    }

    /// The human-readable text of this error.
    pub fn message(&self) -> (m: String)
        ensures
            m@ == self.spec_message(),
    {
        match self {
            ProxyError::HostPort(e) => e.message(),
            ProxyError::InvalidUri => String::from_str("invalid upstream URI"),
            ProxyError::InvalidHostHeader => String::from_str("invalid Host header value"),
        }
    }
}

/// `host:port`, the `Host` header sent upstream.
pub open spec fn spec_host_header(host: Seq<char>, port: u16) -> Seq<char> {
    host + seq![':'] + spec_decimal(port as nat)
}

/// The absolute URI the pooled client is given: `http://host:port` and the
/// request's path and query.
pub open spec fn spec_upstream_uri(host: Seq<char>, port: u16, path_and_query: Seq<char>) -> Seq<char> {
    http_scheme() + spec_host_header(host, port) + path_and_query
}

/// The URI and headers of a request sent to `upstream`, or why it cannot
/// be sent: hop-by-hop headers are dropped, the client certificate's
/// fingerprint header is set from the verified handshake alone, `Host`
/// names the upstream, and the client is recorded in the forwarding
/// headers.
pub open spec fn spec_prepare_upstream(
    es: Seq<(Seq<char>, Seq<u8>)>,
    upstream: Seq<char>,
    path_and_query: Seq<char>,
    fingerprint: Option<Seq<char>>,
    client_ip: Seq<u8>,
    proto: Seq<u8>,
) -> Result<(Seq<char>, Seq<(Seq<char>, Seq<u8>)>), ProxyError> {
    match spec_upstream_host_port(upstream) {
        Err(e) => Err(ProxyError::HostPort(e)),
        Ok((host, port)) => {
            let uri = spec_upstream_uri(host, port, path_and_query);
            let hh = spec_host_header(host, port);
            if !spec_uri_parses(uri) {
                Err(ProxyError::InvalidUri)
            } else if !header_value_ok(encode_utf8(hh)) {
                Err(ProxyError::InvalidHostHeader)
            } else {
                Ok((uri, spec_append_forwarded(
                    set_header(spec_set_fingerprint(spec_strip_hop_by_hop(es), fingerprint), "host"@, encode_utf8(hh)),
                    client_ip,
                    proto,
                )))
            }
        },
    }
}

/// Address a request to `upstream`: returns the absolute URI to send it to
/// and rewrites `headers` for the upstream hop. On an error the headers are
/// left as they were.
pub fn prepare_upstream_request(
    headers: &mut HeaderList,
    upstream: &str,
    path_and_query: &str,
    fingerprint: Option<&str>,
    client_ip: &str,
    proto: &str,
) -> (r: Result<String, ProxyError>)
    requires
        fingerprint matches Some(f) ==> header_value_ok(encode_utf8(f@)),
    ensures
        match spec_prepare_upstream(old(headers)@, upstream@, path_and_query@, opt_str_view(fingerprint), encode_utf8(client_ip@), encode_utf8(proto@)) {
            Ok((uri, es)) => r matches Ok(u) && u@ == uri && final(headers)@ == es,
            Err(e) => r == Err::<String, ProxyError>(e) && final(headers)@ == old(headers)@,
        },
{
    let (host, port) = match upstream_host_port(upstream) {
        Ok(hp) => hp,
        Err(e) => {
            return Err(ProxyError::HostPort(e));
        },
    };
    let mut hh = host.clone();
    hh.append(":");
    let digits = decimal_string(port as u64);
    hh.append(digits.as_str());
    let mut uri = String::from_str("http://");
    uri.append(hh.as_str());
    uri.append(path_and_query);
    proof {
        reveal_strlit("http://");
        reveal_strlit(":");
        assert(hh@ =~= spec_host_header(host@, port));
        assert(uri@ =~= spec_upstream_uri(host@, port, path_and_query@));
    }
    if !uri_parses(uri.as_str()) {
        return Err(ProxyError::InvalidUri);
    }
    if !header_value_parses(hh.as_str()) {
        return Err(ProxyError::InvalidHostHeader);
    }
    headers.strip_hop_by_hop();
    headers.set_client_cert_fingerprint(fingerprint);
    let mut hv: Vec<u8> = Vec::new();
    push_all(&mut hv, hh.as_str().as_bytes());
    headers.insert("host", hv);
    headers.append_forwarded_headers(client_ip, proto);
    Ok(uri)
}

/// The fingerprint header on a request sent upstream is exactly the one
/// from the verified handshake: whatever the client sent under that name,
/// whatever a route override set, and whatever a `Connection` header
/// listed, the forwarded headers carry the fingerprint when the connection
/// has one and no such header when it has none.
pub proof fn law_forwarded_fingerprint_not_spoofable(
    es: Seq<(Seq<char>, Seq<u8>)>,
    upstream: Seq<char>,
    path_and_query: Seq<char>,
    fingerprint: Option<Seq<char>>,
    client_ip: Seq<u8>,
    proto: Seq<u8>,
)
    ensures
        spec_prepare_upstream(es, upstream, path_and_query, fingerprint, client_ip, proto) matches Ok((_, out))
            ==> first_value(out, fingerprint_header()) == match fingerprint {
                Some(f) => Some(encode_utf8(f)),
                None => None::<Seq<u8>>,
            },
{
    match spec_upstream_host_port(upstream) {
        Err(_) => {},
        Ok((host, port)) => {
            let fp = fingerprint_header();
            let expected = match fingerprint {
                Some(f) => Some(encode_utf8(f)),
                None => None::<Seq<u8>>,
            };
            let a = spec_set_fingerprint(spec_strip_hop_by_hop(es), fingerprint);
            match fingerprint {
                Some(f) => lemma_set_header_reads_back(spec_strip_hop_by_hop(es), fp, encode_utf8(f)),
                None => {
                    lemma_remove_all_absent(spec_strip_hop_by_hop(es), fp);
                    lemma_first_value_absent(remove_all(spec_strip_hop_by_hop(es), fp), fp);
                },
            }
            assert(first_value(a, fp) == expected);
            reveal_strlit("host");
            reveal_strlit("x-forwarded-for");
            reveal_strlit("x-forwarded-proto");
            reveal_strlit("x-client-cert-fingerprint");
            let hname: Seq<char> = "host"@;
            let xff: Seq<char> = "x-forwarded-for"@;
            let xfp: Seq<char> = "x-forwarded-proto"@;
            assert(hname.len() != fp.len());
            assert(xff.len() != fp.len());
            assert(xfp.len() != fp.len());
            let hh = encode_utf8(spec_host_header(host, port));
            let b = set_header(a, hname, hh);
            lemma_first_value_other(a, hname, hh, fp);
            let v = spec_forwarded_for(b, client_ip);
            let c = if header_value_ok(v) {
                set_header(b, xff, v)
            } else {
                b
            };
            if header_value_ok(v) {
                lemma_first_value_other(b, xff, v, fp);
            }
            lemma_first_value_other(c, xfp, proto, fp);
        },
    }
}

/// Writing a host and port as `http://host:port` and splitting it again
/// gives them back, for any non-empty host without a `/`; without a port,
/// a host that also has no `:` comes back with port 80.
pub proof fn law_host_port_round_trip(host: Seq<char>, port: u16)
    requires
        host.len() > 0,
        forall|i: int| 0 <= i < host.len() ==> host[i] != '/',
    ensures
        spec_upstream_host_port(http_scheme() + host + seq![':'] + spec_decimal(port as nat))
            == Ok::<(Seq<char>, u16), HostPortError>((host, port)),
        (forall|i: int| 0 <= i < host.len() ==> host[i] != ':')
            ==> spec_upstream_host_port(http_scheme() + host) == Ok::<(Seq<char>, u16), HostPortError>((host, 80u16)),
{
    let d = spec_decimal(port as nat);
    lemma_decimal_digits(port as nat);
    lemma_parse_decimal(port);
    let u = http_scheme() + host + seq![':'] + d;
    let rest = host + seq![':'] + d;
    assert(u.take(7) =~= http_scheme());
    assert(u.skip(7) =~= rest);
    assert forall|i: int| 0 <= i < rest.len() implies rest[i] != '/' by {
        if i < host.len() {
            assert(rest[i] == host[i]);
        } else if i > host.len() {
            assert(rest[i] == d[i - host.len() - 1]);
            assert(is_digit(d[i - host.len() - 1]));
        }
    }
    assert(first_index_of(rest, '/') is None);
    assert(authority_of(u) == rest);
    let k = host.len() as int;
    assert(rest[k] == ':');
    assert forall|j: int| k < j < rest.len() implies rest[j] != ':' by {
        assert(rest[j] == d[j - k - 1]);
        assert(is_digit(d[j - k - 1]));
    }
    lemma_last_index_of(rest, ':', k);
    assert(rest.skip(k + 1) =~= d);
    assert(rest.take(k) =~= host);
    if forall|i: int| 0 <= i < host.len() ==> host[i] != ':' {
        let v = http_scheme() + host;
        assert(v.take(7) =~= http_scheme());
        assert(v.skip(7) =~= host);
        assert(first_index_of(host, '/') is None);
        assert(last_index_of(host, ':') is None);
    }
}

} // verus!

use torana_core::headers::{header_name_from_bytes, HeaderList};
use torana_core::proxy::{prepare_upstream_request, HostPortError, ProxyError};

fn list(pairs: &[(&str, &str)]) -> HeaderList {
    let mut h = HeaderList::new();
    for (n, v) in pairs {
        h.insert(n, v.as_bytes().to_vec());
    }
    h
}

fn get(h: &HeaderList, name: &str) -> Option<String> {
    h.get(name).map(|v| String::from_utf8(v.clone()).unwrap())
}

#[test]
fn proxy_strips_hop_by_hop_headers() {
    let mut headers = HeaderList::new();
    headers.insert("connection", b"close, x-custom".to_vec());
    headers.insert("keep-alive", b"timeout=5".to_vec());
    headers.insert("x-custom", b"1".to_vec());
    headers.insert("x-kept", b"1".to_vec());
    headers.strip_hop_by_hop();
    assert!(headers.get("connection").is_none());
    assert!(headers.get("keep-alive").is_none());
    assert!(headers.get("x-custom").is_none());
    assert!(headers.get("x-kept").is_some());
}

#[test]
fn proxy_appends_to_existing_xff() {
    let mut headers = HeaderList::new();
    headers.insert("x-forwarded-for", b"10.0.0.1".to_vec());
    headers.append_forwarded_headers("192.168.1.5", "https");
    assert_eq!(get(&headers, "x-forwarded-for").unwrap(), "10.0.0.1, 192.168.1.5");
    assert_eq!(get(&headers, "x-forwarded-proto").unwrap(), "https");
}

#[test]
fn xff_set_when_absent_and_proto_replaced() {
    let mut headers = list(&[("x-forwarded-proto", "gopher"), ("accept", "*/*")]);
    headers.append_forwarded_headers("10.1.2.3", "http");
    assert_eq!(get(&headers, "x-forwarded-for").unwrap(), "10.1.2.3");
    assert_eq!(get(&headers, "x-forwarded-proto").unwrap(), "http");
    assert_eq!(headers.entries.iter().filter(|e| e.0 == "x-forwarded-proto").count(), 1);
    assert_eq!(get(&headers, "accept").unwrap(), "*/*");
}

#[test]
fn unreadable_xff_is_replaced_not_appended() {
    let mut headers = HeaderList::new();
    headers.entries.push(("x-forwarded-for".to_string(), vec![0xff, 0xfe]));
    headers.append_forwarded_headers("10.0.0.9", "http");
    assert_eq!(get(&headers, "x-forwarded-for").unwrap(), "10.0.0.9");
}

#[test]
fn connection_listing_is_case_insensitive_and_trimmed() {
    let mut headers = HeaderList::new();
    headers.entries.push(("connection".to_string(), b" X-Trace ,upgrade".to_vec()));
    headers.entries.push(("x-trace".to_string(), b"1".to_vec()));
    headers.entries.push(("te".to_string(), b"trailers".to_vec()));
    headers.entries.push(("host".to_string(), b"a".to_vec()));
    headers.strip_hop_by_hop();
    assert_eq!(headers.entries, vec![("host".to_string(), b"a".to_vec())]);
}

#[test]
fn strip_keeps_order_of_the_rest() {
    let mut headers = HeaderList::new();
    for (n, v) in [("b", "1"), ("upgrade", "h2c"), ("a", "2"), ("b", "3")] {
        headers.entries.push((n.to_string(), v.as_bytes().to_vec()));
    }
    headers.strip_hop_by_hop();
    let names: Vec<&str> = headers.entries.iter().map(|e| e.0.as_str()).collect();
    assert_eq!(names, vec!["b", "a", "b"]);
}

#[test]
fn header_overrides_set_replace_and_remove() {
    let mut headers = list(&[("server", "upstream/1.0"), ("x-a", "old")]);
    let overrides = vec![
        ("X-A".to_string(), "new".to_string()),
        ("server".to_string(), "".to_string()),
        ("x-internal-token".to_string(), "shared-secret".to_string()),
        ("bad header".to_string(), "ignored".to_string()),
    ];
    headers.apply_header_overrides(&overrides);
    assert_eq!(get(&headers, "x-a").unwrap(), "new");
    assert!(headers.get("server").is_none());
    assert_eq!(get(&headers, "x-internal-token").unwrap(), "shared-secret");
    assert_eq!(headers.entries.len(), 2);
}

#[test]
fn client_cert_fingerprint_cannot_be_spoofed() {
    let mut headers = list(&[("x-client-cert-fingerprint", "spoofed")]);
    headers.apply_header_overrides(&vec![(
        "x-client-cert-fingerprint".to_string(),
        "from-config".to_string(),
    )]);
    headers.set_client_cert_fingerprint(None);
    assert!(headers.get("x-client-cert-fingerprint").is_none());
    let mut headers = list(&[("x-client-cert-fingerprint", "spoofed")]);
    headers.set_client_cert_fingerprint(Some("abcd"));
    assert_eq!(get(&headers, "x-client-cert-fingerprint").unwrap(), "abcd");
}

#[test]
fn header_name_normalizes_case() {
    assert_eq!(header_name_from_bytes(b"Content-Type").unwrap(), "content-type");
    assert!(header_name_from_bytes(b"bad name").is_none());
    assert!(header_name_from_bytes(b"").is_none());
}

#[test]
fn remove_and_get_first_of_repeated() {
    let mut headers = HeaderList::new();
    headers.entries.push(("via".to_string(), b"1".to_vec()));
    headers.entries.push(("via".to_string(), b"2".to_vec()));
    assert_eq!(get(&headers, "via").unwrap(), "1");
    headers.remove("via");
    assert!(headers.get("via").is_none());
}

#[test]
fn prepare_upstream_request_rewrites_for_the_hop() {
    let mut headers = list(&[("connection", "keep-alive"), ("host", "public.example"), ("accept", "*/*")]);
    let uri = prepare_upstream_request(&mut headers, "http://10.0.0.2:8081", "/a?b=1", None, "192.168.1.5", "https").unwrap();
    assert_eq!(uri, "http://10.0.0.2:8081/a?b=1");
    assert_eq!(get(&headers, "host").unwrap(), "10.0.0.2:8081");
    assert!(headers.get("connection").is_none());
    assert_eq!(get(&headers, "x-forwarded-for").unwrap(), "192.168.1.5");
    assert_eq!(get(&headers, "x-forwarded-proto").unwrap(), "https");
    assert_eq!(get(&headers, "accept").unwrap(), "*/*");
}

#[test]
fn prepare_upstream_request_defaults_port_and_reports_errors() {
    let mut headers = HeaderList::new();
    let uri = prepare_upstream_request(&mut headers, "example.com", "/", None, "1.2.3.4", "http").unwrap();
    assert_eq!(uri, "http://example.com:80/");
    assert_eq!(get(&headers, "host").unwrap(), "example.com:80");

    let mut headers = list(&[("accept", "*/*")]);
    let before = headers.entries.clone();
    assert_eq!(
        prepare_upstream_request(&mut headers, "http://:8080", "/", None, "1.2.3.4", "http"),
        Err(ProxyError::HostPort(HostPortError::MissingHost))
    );
    assert_eq!(headers.entries, before);
    assert_eq!(
        prepare_upstream_request(&mut headers, "http://h:99999", "/", None, "1.2.3.4", "http"),
        Err(ProxyError::HostPort(HostPortError::InvalidPort))
    );
    assert_eq!(
        prepare_upstream_request(&mut headers, "http://a b:80", "/", None, "1.2.3.4", "http"),
        Err(ProxyError::InvalidUri)
    );
    assert_eq!(headers.entries, before);
    assert_eq!(ProxyError::InvalidUri.message(), "invalid upstream URI");
}

#[test]
fn xff_not_set_when_the_value_would_be_invalid() {
    let mut headers = HeaderList::new();
    headers.append_forwarded_headers("10.0.0.1\n", "http");
    assert!(headers.get("x-forwarded-for").is_none());
    assert_eq!(get(&headers, "x-forwarded-proto").unwrap(), "http");
}

#[test]
fn invalid_override_values_are_skipped() {
    let mut headers = list(&[("x-a", "keep")]);
    headers.apply_header_overrides(&vec![("x-a".to_string(), "bad\nvalue".to_string())]);
    assert_eq!(get(&headers, "x-a").unwrap(), "keep");
}

#[test]
fn header_rewrite_overrides_in_both_directions() {
    let mut request = list(&[("x-remove-me", "should-be-stripped"), ("accept", "*/*")]);
    request.apply_header_overrides(&vec![
        ("x-injected".to_string(), "proxy-value".to_string()),
        ("x-remove-me".to_string(), "".to_string()),
    ]);
    assert_eq!(get(&request, "x-injected").unwrap(), "proxy-value");
    assert!(request.get("x-remove-me").is_none());

    let mut response = list(&[("x-backend-secret", "leak"), ("content-type", "text/plain")]);
    response.apply_header_overrides(&vec![
        ("x-backend-secret".to_string(), "".to_string()),
        ("x-added".to_string(), "yes".to_string()),
    ]);
    assert_eq!(get(&response, "x-added").unwrap(), "yes");
    assert!(response.get("x-backend-secret").is_none());
    assert_eq!(get(&response, "content-type").unwrap(), "text/plain");
}

#[test]
fn forwarded_fingerprint_survives_a_connection_header_naming_it() {
    let mut headers = list(&[
        ("connection", "x-client-cert-fingerprint"),
        ("x-client-cert-fingerprint", "spoofed"),
    ]);
    prepare_upstream_request(&mut headers, "http://10.0.0.2:8081", "/", Some("abcd"), "10.0.0.9", "https").unwrap();
    assert_eq!(get(&headers, "x-client-cert-fingerprint").unwrap(), "abcd");
    assert_eq!(headers.entries.iter().filter(|e| e.0 == "x-client-cert-fingerprint").count(), 1);

    let mut headers = list(&[("x-client-cert-fingerprint", "spoofed")]);
    prepare_upstream_request(&mut headers, "http://10.0.0.2:8081", "/", None, "10.0.0.9", "http").unwrap();
    assert!(headers.get("x-client-cert-fingerprint").is_none());
}

#[test]
fn header_names_are_token_bytes_lowercased() {
    assert_eq!(header_name_from_bytes(b"X-Custom_Tag~1").unwrap(), "x-custom_tag~1");
    assert!(header_name_from_bytes(b"x:y").is_none());
    assert!(header_name_from_bytes(&vec![b'a'; 65535]).is_some());
    assert!(header_name_from_bytes(&vec![b'a'; 65536]).is_none());
    assert!(header_name_from_bytes("é".as_bytes()).is_none());
}

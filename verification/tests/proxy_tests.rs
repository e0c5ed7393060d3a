use torana_core::legacy::proxy::upstream_host_port as legacy_host_port;
use torana_core::proxy::{upstream_host_port, HostPortError};

#[test]
fn proxy_host_port_with_scheme_and_port() {
    assert_eq!(upstream_host_port("http://localhost:9999").unwrap(), ("localhost".to_string(), 9999));
}

#[test]
fn host_port_with_scheme_and_port() {
    assert_eq!(legacy_host_port("http://localhost:9999").unwrap(), ("localhost".to_string(), 9999));
}

#[test]
fn proxy_host_port_defaults_to_80() {
    assert_eq!(upstream_host_port("http://example.com").unwrap(), ("example.com".to_string(), 80));
}

#[test]
fn host_port_defaults_to_80() {
    assert_eq!(legacy_host_port("http://example.com").unwrap(), ("example.com".to_string(), 80));
}

#[test]
fn proxy_host_port_without_scheme() {
    assert_eq!(upstream_host_port("127.0.0.1:8080").unwrap(), ("127.0.0.1".to_string(), 8080));
}

#[test]
fn host_port_without_scheme() {
    assert_eq!(legacy_host_port("127.0.0.1:8080").unwrap(), ("127.0.0.1".to_string(), 8080));
}

#[test]
fn proxy_host_port_ignores_path() {
    assert_eq!(upstream_host_port("http://example.com:8080/path").unwrap(), ("example.com".to_string(), 8080));
}

#[test]
fn host_port_ignores_path() {
    assert_eq!(legacy_host_port("http://example.com:8080/path").unwrap(), ("example.com".to_string(), 8080));
}

#[test]
fn proxy_host_port_rejects_empty() {
    assert!(upstream_host_port("http://").is_err());
    assert!(upstream_host_port("http://:8080").is_err());
}

#[test]
fn host_port_rejects_empty() {
    assert!(legacy_host_port("http://").is_err());
    assert!(legacy_host_port("http://:8080").is_err());
}

#[test]
fn host_port_error_kinds() {
    assert_eq!(upstream_host_port("http://").unwrap_err(), HostPortError::MissingHost);
    assert_eq!(upstream_host_port("http://:8080").unwrap_err(), HostPortError::MissingHost);
    assert_eq!(
        upstream_host_port("http://127.0.0.1:not-a-port").unwrap_err(),
        HostPortError::InvalidPort
    );
    assert_eq!(upstream_host_port("http://h:70000").unwrap_err(), HostPortError::InvalidPort);
    assert_eq!(upstream_host_port("http://h:").unwrap_err(), HostPortError::InvalidPort);
}

#[test]
fn host_port_edge_cases() {
    // The port is whatever follows the last colon; a leading '+' is accepted
    // as by `str::parse::<u16>`.
    assert_eq!(upstream_host_port("http://h:+81").unwrap(), ("h".to_string(), 81));
    assert_eq!(upstream_host_port("http://h:0080").unwrap(), ("h".to_string(), 80));
    assert_eq!(upstream_host_port("http://h:65535").unwrap(), ("h".to_string(), 65535));
    assert_eq!(upstream_host_port("a:b:1").unwrap(), ("a:b".to_string(), 1));
    // "https://" is not stripped, so the text before the first '/' is
    // "https:", whose port is empty.
    assert_eq!(upstream_host_port("https://x").unwrap_err(), HostPortError::InvalidPort);
    assert_eq!(upstream_host_port("").unwrap_err(), HostPortError::MissingHost);
    assert_eq!(upstream_host_port("/path").unwrap_err(), HostPortError::MissingHost);
}

#[test]
fn host_and_port_round_trip() {
    for (host, port) in [("example.com", 8080u16), ("::1", 443), ("h", 0)] {
        assert_eq!(
            upstream_host_port(&format!("http://{}:{}", host, port)).unwrap(),
            (host.to_string(), port)
        );
    }
    assert_eq!(upstream_host_port("http://example.com").unwrap(), ("example.com".to_string(), 80));
}

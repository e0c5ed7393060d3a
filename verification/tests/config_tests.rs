use std::time::Duration;
use torana_core::config::{parse_duration, DurationError};

#[test]
fn parse_duration_units() {
    assert_eq!(parse_duration("200ms").unwrap(), Duration::from_millis(200));
    assert_eq!(parse_duration("30s").unwrap(), Duration::from_secs(30));
    assert_eq!(parse_duration("5m").unwrap(), Duration::from_secs(300));
    assert!(parse_duration("30").is_err());
    assert!(parse_duration("abc").is_err());
    assert!(parse_duration("30h").is_err());
}

#[test]
fn parse_duration_errors_and_whitespace() {
    assert_eq!(parse_duration("30").unwrap_err(), DurationError::MissingUnit);
    assert_eq!(parse_duration("abc").unwrap_err(), DurationError::InvalidValue);
    assert_eq!(parse_duration("30h").unwrap_err(), DurationError::UnknownUnit);
    assert_eq!(parse_duration("99999999999999999999s").unwrap_err(), DurationError::InvalidValue);
    assert_eq!(parse_duration("").unwrap_err(), DurationError::MissingUnit);
    assert_eq!(parse_duration("  \t10s\n").unwrap(), Duration::from_secs(10));
    assert_eq!(parse_duration("10 s").unwrap_err(), DurationError::UnknownUnit);
    assert_eq!(parse_duration("0ms").unwrap(), Duration::from_millis(0));
}

use torana_core::config::{
    AutoTlsConfig, Config, GlobalConfig, HeaderConfig, HealthCheckConfig, ListenerConfig,
    MirrorConfig, RouteConfig, TimeoutConfig, UpstreamConfig,
};
use torana_core::validate::{BuildFeatures, ConfigError};

fn minimal_config(upstream_addr: &str) -> Config {
    Config {
        global: GlobalConfig {
            workers: None,
            log_format: None,
            log_level: None,
            metrics_addr: None,
        },
        listener: vec![ListenerConfig {
            addr: "127.0.0.1:8080".into(),
            protocol: "http".into(),
            tls_cert: None,
            tls_key: None,
            tls_client_ca: None,
            acme: None,
        }],
        route: vec![RouteConfig {
            name: "default".into(),
            host: None,
            path: None,
            when: None,
            upstream: vec![UpstreamConfig {
                addr: upstream_addr.into(),
                weight: None,
            }],
            mirror: None,
            timeout: TimeoutConfig::default(),
            headers: HeaderConfig::default(),
            health_check: None,
            retries: None,
            plugin: None,
        }],
    }
}

fn acme_config(domains: &[&str]) -> AutoTlsConfig {
    AutoTlsConfig {
        domains: domains.iter().map(|s| s.to_string()).collect(),
        contact_emails: None,
        cache_dir: None,
        directory_url: None,
        staging: Some(true),
        ca_cert: None,
    }
}

#[test]
fn parses_minimal_config() {
    let config = minimal_config("http://127.0.0.1:9000");
    assert_eq!(config.listener.len(), 1);
    assert_eq!(config.route[0].upstream[0].addr, "http://127.0.0.1:9000");
    config.validate().unwrap();
}

#[test]
fn rejects_https_upstream() {
    let config = minimal_config("https://example.com");
    let err = config.validate().unwrap_err().message();
    assert!(err.contains("not implemented"), "unexpected error: {}", err);
}

#[test]
fn rejects_https_listener_without_cert() {
    let mut config = minimal_config("http://127.0.0.1:9000");
    config.listener[0].protocol = "https".into();
    assert!(config.validate().is_err());
}

#[test]
fn rejects_unknown_protocol() {
    let mut config = minimal_config("http://127.0.0.1:9000");
    config.listener[0].protocol = "quic".into();
    assert!(config.validate().is_err());
}

#[test]
fn rejects_path_without_leading_slash() {
    let mut config = minimal_config("http://127.0.0.1:9000");
    config.route[0].path = Some("api".into());
    assert!(config.validate().is_err());
}

#[test]
fn rejects_zero_retries() {
    let mut config = minimal_config("http://127.0.0.1:9000");
    config.route[0].retries = Some(0);
    assert!(config.validate().is_err());
}

#[test]
fn max_attempts_defaults() {
    let mut config = minimal_config("http://127.0.0.1:9000");
    assert_eq!(config.route[0].max_attempts(), 1);
    config.route[0].upstream.push(UpstreamConfig {
        addr: "http://127.0.0.1:9001".into(),
        weight: None,
    });
    assert_eq!(config.route[0].max_attempts(), 2);
    config.route[0].retries = Some(5);
    assert_eq!(config.route[0].max_attempts(), 5);
}

#[test]
fn rejects_tls_client_ca_on_http_listener() {
    let mut config = minimal_config("http://127.0.0.1:9000");
    config.listener[0].tls_client_ca = Some("./ca.pem".into());
    assert!(config.validate().is_err());
}

#[test]
fn acme_requires_https_protocol() {
    let mut config = minimal_config("http://127.0.0.1:9000");
    config.listener[0].acme = Some(acme_config(&["example.com"]));
    assert!(config.validate().is_err());
}

#[test]
fn acme_rejects_empty_domains() {
    let mut config = minimal_config("http://127.0.0.1:9000");
    config.listener[0].protocol = "https".into();
    config.listener[0].acme = Some(acme_config(&[]));
    assert!(config.validate().is_err());
}

#[test]
fn acme_mutually_exclusive_with_static_cert() {
    let mut config = minimal_config("http://127.0.0.1:9000");
    config.listener[0].protocol = "https".into();
    config.listener[0].tls_cert = Some("./tls.crt".into());
    config.listener[0].tls_key = Some("./tls.key".into());
    config.listener[0].acme = Some(acme_config(&["example.com"]));
    assert!(config.validate().is_err());
}

#[test]
fn acme_mutually_exclusive_with_mtls() {
    let mut config = minimal_config("http://127.0.0.1:9000");
    config.listener[0].protocol = "https".into();
    config.listener[0].tls_client_ca = Some("./ca.pem".into());
    config.listener[0].acme = Some(acme_config(&["example.com"]));
    assert!(config.validate().is_err());
}

#[test]
fn acme_rejects_invalid_directory_url() {
    let mut config = minimal_config("http://127.0.0.1:9000");
    config.listener[0].protocol = "https".into();
    let mut acme = acme_config(&["example.com"]);
    acme.directory_url = Some("not a url".into());
    config.listener[0].acme = Some(acme);
    assert!(config.validate().is_err());
}

#[test]
fn acme_valid_config_passes_with_feature_enabled() {
    let mut config = minimal_config("http://127.0.0.1:9000");
    config.listener[0].protocol = "https".into();
    config.listener[0].acme = Some(acme_config(&["example.com"]));
    config.validate().unwrap();
}

#[test]
fn acme_valid_config_rejected_without_feature() {
    let mut config = minimal_config("http://127.0.0.1:9000");
    config.listener[0].protocol = "https".into();
    config.listener[0].acme = Some(acme_config(&["example.com"]));
    let without_acme = BuildFeatures { acme: false, plugins: true };
    let err = config.validate_with(without_acme).unwrap_err().message();
    assert!(err.contains("--features acme"), "unexpected error: {}", err);
}

#[test]
fn rejects_invalid_mirror_addr() {
    let mut config = minimal_config("http://127.0.0.1:9000");
    config.route[0].mirror = Some(MirrorConfig {
        addr: "http://127.0.0.1:not-a-port".into(),
        rate: None,
    });
    assert!(config.validate().is_err());
}

#[test]
fn rejects_mirror_rate_over_100() {
    let mut config = minimal_config("http://127.0.0.1:9000");
    config.route[0].mirror = Some(MirrorConfig {
        addr: "http://127.0.0.1:9001".into(),
        rate: Some(101),
    });
    assert!(config.validate().is_err());
}

#[test]
fn accepts_valid_mirror() {
    let mut config = minimal_config("http://127.0.0.1:9000");
    config.route[0].mirror = Some(MirrorConfig {
        addr: "http://127.0.0.1:9001".into(),
        rate: Some(50),
    });
    config.validate().unwrap();
}

#[test]
fn rejects_invalid_header_name() {
    let mut config = minimal_config("http://127.0.0.1:9000");
    let headers = vec![("bad header name".to_string(), "value".to_string())];
    config.route[0].headers.request = Some(headers);
    assert!(config.validate().is_err());
}

#[test]
fn accepts_empty_header_value_as_removal() {
    let mut config = minimal_config("http://127.0.0.1:9000");
    let headers = vec![("x-remove-me".to_string(), "".to_string())];
    config.route[0].headers.response = Some(headers);
    config.validate().unwrap();
}

#[test]
fn validate_reports_each_error_kind() {
    let base = minimal_config("http://127.0.0.1:9000");

    let mut c = base.clone();
    c.listener.clear();
    assert_eq!(c.validate().unwrap_err(), ConfigError::NoListeners);

    let mut c = base.clone();
    c.route.clear();
    assert_eq!(c.validate().unwrap_err(), ConfigError::NoRoutes);

    let mut c = base.clone();
    c.listener[0].addr = "localhost:80".into();
    assert_eq!(
        c.validate().unwrap_err(),
        ConfigError::InvalidListenerAddr { addr: "localhost:80".into() }
    );

    let mut c = base.clone();
    c.listener[0].addr = "[::1]:8443".into();
    c.validate().unwrap();

    let mut c = base.clone();
    c.route[0].timeout.total = Some("10h".into());
    let err = c.validate().unwrap_err();
    assert!(err.message().contains("invalid timeout.total"), "{}", err.message());

    let mut c = base.clone();
    c.route[0].health_check = Some(HealthCheckConfig {
        path: None,
        interval: Some("5".into()),
        timeout: None,
    });
    assert!(matches!(c.validate().unwrap_err(), ConfigError::InvalidHealthInterval { .. }));

    let mut c = base.clone();
    c.route[0].plugin = Some("./filter.wasm".into());
    c.validate().unwrap();
    let err = c.validate_with(BuildFeatures { acme: true, plugins: false }).unwrap_err();
    assert!(err.message().contains("--features plugins"));

    let mut c = base.clone();
    c.route[0].upstream.clear();
    assert_eq!(c.validate().unwrap_err(), ConfigError::NoUpstreams { route: "default".into() });

    let mut c = base.clone();
    c.route[0].headers.request = Some(vec![("x-ok".into(), "bad\u{7f}value".into())]);
    assert_eq!(
        c.validate().unwrap_err(),
        ConfigError::InvalidHeaderValue { route: "default".into(), name: "x-ok".into() }
    );
}

#[test]
fn header_and_mirror_errors_name_the_offender() {
    let mut c = minimal_config("http://127.0.0.1:9000");
    c.route[0].headers.request = Some(vec![("x-ok".to_string(), "bad\nvalue".to_string())]);
    assert_eq!(
        c.validate().unwrap_err(),
        ConfigError::InvalidHeaderValue { route: "default".into(), name: "x-ok".into() }
    );
    let mut c = minimal_config("http://127.0.0.1:9000");
    c.route[0].mirror = Some(MirrorConfig { addr: "http://127.0.0.1:9001".into(), rate: Some(101) });
    assert_eq!(
        c.validate().unwrap_err().message(),
        "Route 'default': mirror.rate must be 0-100, got 101"
    );
}

#[test]
fn upstream_weight_is_capped() {
    let mut c = minimal_config("http://127.0.0.1:9000");
    c.route[0].upstream[0].weight = Some(10000);
    c.validate().unwrap();
    c.route[0].upstream.push(UpstreamConfig { addr: "http://127.0.0.1:9001".into(), weight: Some(1_000_000) });
    let err = c.validate().unwrap_err();
    assert_eq!(
        err,
        ConfigError::WeightTooHigh {
            route: "default".into(),
            upstream: "http://127.0.0.1:9001".into(),
            weight: 1_000_000
        }
    );
    assert_eq!(
        err.message(),
        "Route 'default': upstream 'http://127.0.0.1:9001' weight 1000000 exceeds the maximum of 10000"
    );
}

#[test]
fn header_errors_carry_the_cause() {
    let mut c = minimal_config("http://127.0.0.1:9000");
    c.route[0].headers.request = Some(vec![("bad name".to_string(), "v".to_string())]);
    assert_eq!(
        c.validate().unwrap_err().message(),
        "Route 'default': invalid header name 'bad name': invalid HTTP header name"
    );
}

#[test]
fn unrepresentable_durations_are_rejected() {
    let mut c = minimal_config("http://127.0.0.1:9000");
    c.route[0].timeout.total = Some("999999999999999999m".into());
    assert_eq!(
        c.validate().unwrap_err(),
        ConfigError::InvalidTimeoutTotal {
            route: "default".into(),
            value: "999999999999999999m".into(),
            cause: torana_core::config::DurationError::InvalidValue,
        }
    );
}

#[test]
fn duration_errors_quote_the_text() {
    assert_eq!(DurationError::MissingUnit.describe(" 30 "), "Duration '30' is missing a unit (ms, s, m)");
    assert_eq!(DurationError::InvalidValue.describe("ms"), "Invalid duration value 'ms'");
    assert_eq!(DurationError::UnknownUnit.describe("10h"), "Unknown duration unit 'h' in '10h'");
    let mut c = minimal_config("http://127.0.0.1:9000");
    c.route[0].timeout.total = Some("5x".into());
    assert_eq!(
        c.validate().unwrap_err().message(),
        "Route 'default': invalid timeout.total: Unknown duration unit 'x' in '5x'"
    );
}

#[test]
fn upstream_errors_quote_the_address() {
    let c = minimal_config("http://:9000");
    assert_eq!(
        c.validate().unwrap_err().message(),
        "Route 'default': invalid upstream 'http://:9000': Could not extract host from 'http://:9000'"
    );
}

#[test]
fn invalid_directory_url_carries_the_parser_cause() {
    let mut config = minimal_config("http://127.0.0.1:9000");
    config.listener[0].protocol = "https".into();
    let mut acme = acme_config(&["example.com"]);
    acme.directory_url = Some("not a url".into());
    config.listener[0].acme = Some(acme);
    let err = config.validate().unwrap_err();
    let addr = config.listener[0].addr.clone();
    assert_eq!(err.message(), format!("listener {}: invalid acme.directory_url: invalid uri character", addr));
}

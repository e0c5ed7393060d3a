use torana_core::server::{init_logging, LogKind, LogSetup, LoggingError};

#[test]
fn logging_installs_once() {
    assert_eq!(init_logging("json", "info"), Ok(LogSetup { kind: LogKind::Json, level: "info".to_string() }));
    assert_eq!(init_logging("text", "debug"), Err(LoggingError::AlreadyInitialized));
}

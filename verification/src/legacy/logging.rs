//! Access-log record of the first-generation proxy.
use vstd::prelude::*;

verus! {

/// Structured access log entry (emitted after every request).
#[derive(Debug, Clone)]
pub struct AccessLog {
    pub timestamp: String,
    pub method: String,
    pub path: String,
    pub status: u16,
    pub upstream_latency_ms: u64,
    pub bytes_out: u64,
}

} // verus!

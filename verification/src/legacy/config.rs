//! Configuration of the first-generation proxy.
use vstd::prelude::*;
pub use crate::config::{GlobalConfig, HeaderConfig, MirrorConfig, TimeoutConfig, UpstreamConfig};

verus! {

#[derive(Debug, Clone)]
pub struct Config {
    pub global: GlobalConfig,
    pub listener: Vec<ListenerConfig>,
    pub route: Vec<RouteConfig>,
}

#[derive(Debug, Clone)]
pub struct ListenerConfig {
    pub addr: String,
    /// "http" or "https"
    pub protocol: String,
    pub tls_cert: Option<String>,
    pub tls_key: Option<String>,
    pub tls_client_ca: Option<String>,
}

#[derive(Debug, Clone)]
pub struct RouteConfig {
    pub name: String,
    /// Reserved for a future expression matcher.
    pub when: Option<String>,
    pub upstream: Vec<UpstreamConfig>,
    pub mirror: Option<MirrorConfig>,
    pub timeout: TimeoutConfig,
    pub headers: HeaderConfig,
}

} // verus!

//! The first-generation standalone proxy: a single-route configuration and
//! a round-robin balancer without gcd reduction.
pub mod config;
pub mod handler;
pub mod logging;
pub mod proxy;
pub mod upstream;

use vstd::prelude::*;

pub mod acme;
pub mod admin;
pub mod config;
pub mod headers;
pub mod health;
pub mod legacy;
pub mod plugin;
pub mod proxy;
pub mod routing;
pub mod server;
pub mod text;
pub mod tls;
pub mod upstream;
pub mod validate;

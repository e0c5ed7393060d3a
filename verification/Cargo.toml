[package]
name = "torana-core"
version = "0.6.0"
edition = "2021"
publish = false

[dependencies]
hyper = { version = "=1.12.0", features = ["http1", "http2", "server", "client"] }
ring = "=0.17.14"
hyper-util = { version = "=0.1.21", features = ["client-legacy", "http1", "http2", "tokio", "server"] }
http-body-util = "=0.1.5"
bytes = "=1.12.1"
tokio = { version = "=1.54.1", features = ["full"] }
rustls = { version = "=0.23.46", default-features = false, features = ["ring", "std", "logging", "tls12"] }
tokio-rustls = { version = "=0.26.6", default-features = false, features = ["ring", "logging", "tls12"] }
rustls-pemfile = "=2.2.0"
prometheus = "=0.13.4"
tracing = "=0.1.44"
tracing-subscriber = { version = "=0.3.23", features = ["json", "env-filter"] }
toml = "=0.8.23"
serde = { version = "=1.0.229", features = ["derive"] }
anyhow = "=1.0.104"
clap = { version = "=4.6.7", features = ["derive"] }
futures = "=0.3.34"
tokio-util = { version = "=0.7.20", features = ["compat"] }
rustls-acme = { version = "=0.15.4", default-features = false, features = ["ring", "tls12", "webpki-roots"] }
wasmtime = "=46.0.3"

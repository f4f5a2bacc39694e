[package]
name = "coredns-rust"
version = "0.1.0"
edition = "2021"
publish = false

[dependencies]
anyhow = "1"
chrono = "0.4"
clap = { version = "4", features = ["derive"] }
hex = "0.4"
lazy_static = "1"
moka = { version = "0.12", features = ["sync"] }
prometheus = "0.13"
rand = "0.8"
regex = "1"
rolling-file = "0.2"
sha2 = "0.10"
tokio = { version = "1", features = ["full"] }
tokio-rustls = "0.24"
tracing = "0.1"
tracing-appender = "0.2"
tracing-subscriber = { version = "0.3", features = ["env-filter"] }
webpki-roots = "0.25"

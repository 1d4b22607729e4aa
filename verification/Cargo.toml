[package]
name = "iron_proxy"
version = "4.0.3"
edition = "2021"
publish = false

[dependencies]
arc-swap = "1"
axum = "0.8"
bollard = "0.18"
clap = { version = "4", features = ["derive"] }
daemonize = "0.5"
dashmap = "6"
deadpool-redis = { version = "0.20", features = ["rt_tokio_1"] }
futures-util = "0.3"
http-body-util = "0.1"
hyper = { version = "1", features = ["full"] }
hyper-util = { version = "0.1", features = ["full"] }
metrics = "0.24"
metrics-exporter-prometheus = { version = "0.16", default-features = false, features = ["http-listener"] }
notify = "8"
reqwest = { version = "0.12", default-features = false }
rustls = { version = "0.23", default-features = false, features = ["ring", "std", "tls12"] }
rustls-pemfile = "2"
serde = { version = "1", features = ["derive"] }
serde_json = "1"
tokio = { version = "1", features = ["full"] }
tokio-rustls = { version = "0.26", default-features = false, features = ["ring", "tls12"] }
toml = "0.8"
tracing = "0.1"
tracing-subscriber = { version = "0.3", features = ["env-filter", "json"] }

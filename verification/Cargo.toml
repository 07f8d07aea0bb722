[package]
name = "where_am_i"
version = "0.1.0"
edition = "2021"
publish = false

[dependencies]
anyhow = "1"
async-stream = "0.3"
async-trait = "0.1"
axum = "0.7"
chrono = { version = "=0.4.45", default-features = false, features = ["std"] }
fast_qr = { version = "0.12", features = ["svg"] }
figment = { version = "0.10", features = ["toml"] }
futures = "0.3"
http = "1"
http-cache-reqwest = "0.15"
notify = "6"
pin-project-lite = "0.2"
reqwest = { version = "0.12", default-features = false, features = ["json", "rustls-tls"] }
reqwest-middleware = { version = "0.4", features = ["json"] }
reqwest-retry = "0.7"
reqwest-tracing = "0.5"
serde = { version = "1", features = ["derive"] }
tokio = { version = "1", features = ["fs", "io-util", "macros", "net", "rt", "sync", "time"] }
tower-http = { version = "0.5", features = ["fs", "trace"] }
tracing = "0.1"
tracing-subscriber = { version = "0.3", features = ["env-filter"] }
uuid = "=1.29.0"

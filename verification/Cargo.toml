[package]
name = "lightorrent"
version = "2026.4.1"
edition = "2021"
publish = false

[dependencies]
anyhow = "1"
argon2 = { version = "0.5", features = ["std"] }
axum = { version = "0.7", features = ["multipart"] }
clap = { version = "4", features = ["derive"] }
magpie-bt = "0.1"
magpie-bt-metainfo = "0.1"
password-hash = { version = "0.5", features = ["rand_core", "std"] }
redb = "2"
reqwest = { version = "0.12", default-features = false, features = ["rustls-tls"] }
serde = { version = "1", features = ["derive"] }
serde_json = "1"
tokio = { version = "1", features = ["rt-multi-thread", "macros", "net", "signal", "sync", "time"] }
tokio-util = "0.7"
toml = "0.8"
tracing = "0.1"
tracing-appender = "0.2"
tracing-subscriber = { version = "0.3", features = ["env-filter", "json"] }
uuid = { version = "1", features = ["v4"] }

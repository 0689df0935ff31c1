[package]
name = "axum_ws"
version = "0.1.0"
edition = "2021"
publish = false

[dependencies]
tokio = { version = "*", features = ["sync", "rt", "rt-multi-thread", "macros"] }
nanoid = "*"
axum = { version = "*", features = ["ws"] }
serde_json = "*"
futures = "*"
dashmap = "*"
lazy_static = "*"
anyhow = "*"
thiserror = "*"

[package]
name = "logpose"
version = "0.1.0"
edition = "2021"
publish = false

[dependencies]
axum = "0.8"
serde = { version = "1", features = ["derive"] }
serde_json = "1"
thiserror = "2"
tokio = { version = "1", features = ["net", "rt-multi-thread", "macros", "sync", "time"] }
toml = "0.8"
tonic = "0.12"
tower-http = { version = "0.6", features = ["trace"] }
tracing = "0.1"

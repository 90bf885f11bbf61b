[package]
name = "sentinel_dbms"
version = "0.1.0"
edition = "2021"
publish = false

[dependencies]
dashmap = "*"
uuid = { version = "*", features = ["v4"] }
serde = { version = "*", features = ["derive"] }
serde_json = { version = "*", features = ["arbitrary_precision"] }
thiserror = "*"
chrono = { version = "*", features = ["serde"] }
tokio = { version = "*", features = ["full"] }
fs2 = "*"
futures = "*"
async-stream = "*"
tokio-stream = "*"
tracing = "*"
async-trait = "*"

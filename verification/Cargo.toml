[package]
name = "echo_agent"
version = "0.1.0"
edition = "2021"
publish = false

[dependencies]
glob = "0.3"
regex = "1"
shlex = "1"
serde_json = "1"
serde_yaml_ng = "0.10"
serde = { version = "1", features = ["derive"] }
anyhow = "1"
async-stream = "0.3"
axum = { version = "0.7", features = ["ws"] }
chrono = "0.4"
dashmap = "6"
dotenvy = "0.15"
futures = "0.3"
futures-util = "0.3"
parking_lot = "0.12"
reqwest = { version = "0.12", default-features = false, features = ["json"] }
thiserror = "2"
tokio = { version = "1", features = ["full"] }
tokio-util = "0.7"
tower-http = { version = "0.6", features = ["cors", "fs"] }
tracing = "0.1"
tracing-subscriber = { version = "0.3", features = ["env-filter"] }
uuid = { version = "1", features = ["v4"] }

[package]
name = "claude_meter"
version = "0.1.0"
edition = "2021"
publish = false

[dependencies]
anyhow = "1"
axum = "*"
chrono = "0.4"
clap = { version = "4", features = ["derive"] }
comfy-table = "7"
opentelemetry-proto = { version = "*", default-features = false, features = ["gen-tonic-messages", "metrics"] }
prost = "*"
rusqlite = { version = "*", features = ["bundled"] }
serde_json = "1"
tokio = { version = "1", features = ["full"] }

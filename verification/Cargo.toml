[package]
name = "sherlock"
version = "0.1.0"
edition = "2021"
publish = false

[dependencies]
sha2 = "0.10"
num-bigint = "0.4"
num-traits = "0.2"
serde = { version = "1", features = ["derive"] }
serde_json = "1"
axum = "0.7"
tokio = { version = "1", features = ["full"] }
tower-http = { version = "0.5", features = ["cors", "fs"] }
tempfile = "3"

[package]
name = "rime"
version = "0.1.0"
edition = "2021"
publish = false

[dependencies]
serde_json = "=1.0.154"
serde = { version = "=1.0.229", features = ["derive"] }
clap = { version = "=4.6.7", features = ["derive"] }
tokio = { version = "=1.54.1", features = ["full"] }
async-trait = "=0.1.92"
ureq = "=2.12.1"
rust-mcp-sdk = "=0.8.3"

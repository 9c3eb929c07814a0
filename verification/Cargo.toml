[package]
name = "yomikae_report"
version = "0.1.0"
edition = "2021"
publish = false

[dependencies]
serde = { version = "*", features = ["derive"] }
serde_json = "*"
clap = { version = "*", features = ["derive"] }
tokio = { version = "*", features = ["full"] }
tokio-stream = "*"
regex = "*"
anyhow = "*"

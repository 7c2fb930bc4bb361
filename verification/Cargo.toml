[package]
name = "ddns_updater"
version = "0.1.0"
edition = "2021"
publish = false

[dependencies]
if-addrs = "0.12"
reqwest = "0.12"
serde = { version = "1", features = ["derive"] }
tokio = { version = "1", features = ["macros", "rt-multi-thread", "time"] }
tokio-cron-scheduler = "*"
toml = "0.8"
tracing = "0.1"
tracing-subscriber = "0.3"

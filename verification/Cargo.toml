[package]
name = "rig_tools"
version = "0.1.0"
edition = "2021"
publish = false

[dependencies]
base64 = "=0.22.1"
ego-tree = "=0.11.1"
globset = "=0.4.21"
htmd = "=0.5.6"
ignore = "=0.4.34"
regex = "=1.13.1"
reqwest = { version = "=0.13.5", default-features = false, features = ["charset", "http2"] }
rig-core = "=0.32.0"
rust-i18n = "=4.2.4"
scraper = "=0.29.0"
serde = { version = "=1.0.229", features = ["derive"] }
serde_json = "=1.0.154"
similar = "=2.7.0"
thiserror = "=2.0.21"
tokio = { version = "=1.54.1", features = ["full"] }

[package]
name = "ai_cli"
version = "0.1.7"
edition = "2021"
publish = false

[dependencies]
clap = { version = "4", features = ["derive"] }
dirs = "6"
futures = "0.3"
reqwest = { version = "0.12", default-features = false, features = ["json", "stream", "rustls-tls"] }
reqwest-eventsource = "0.6"
self-replace = "1"
serde = { version = "1", features = ["derive"] }
serde_json = "1"
sysinfo = "0.35"
tempfile = "3"
tokio = { version = "1", features = ["full"] }

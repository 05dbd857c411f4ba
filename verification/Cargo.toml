[package]
name = "scan_scheduler"
version = "0.1.0"
edition = "2021"
publish = false

[dependencies]
chrono = "0.4"
serde_json = "1"
serde = { version = "1", features = ["derive"] }
reqwest = { version = "0.11", default-features = false, features = ["json", "rustls-tls"] }
tokio = { version = "1", features = ["macros", "rt-multi-thread", "time"] }
futures = "0.3"
clap = { version = "3", features = ["derive"] }
env_logger = "0.10"
log = "0.4"

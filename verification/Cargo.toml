[package]
name = "drainpipe"
version = "0.1.0"
edition = "2021"
publish = false

[dependencies]
axum = "0.6"
chrono = { version = "0.4", features = ["serde"] }
crossbeam-channel = "0.5"
dirs = "4"
envy = "0.4"
feed-rs = "1"
futures = "0.3"
mime_guess = "2"
notify = "5"
owo-colors = "3"
reqwest = { version = "0.11", default-features = false, features = ["rustls-tls"] }
scraper = "0.13"
serde = { version = "1", features = ["derive"] }
serde_json = "1"
serde_yaml = "0.9"
sqlx = { version = "0.6", default-features = false, features = ["runtime-tokio-rustls", "sqlite", "macros"] }
thiserror = "1"
tokio = { version = "1", features = ["full"] }
tokio-stream = "0.1"
tracing = { version = "0.1", features = ["log"] }
tracing-subscriber = { version = "0.3", features = ["env-filter"] }
url = "2"

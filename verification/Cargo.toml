[package]
name = "knowledge_builder"
version = "0.1.0"
edition = "2021"
publish = false

[dependencies]
regex = "1"
serde_json = "1"
chrono = "0.4"
globset = "0.4"
serde = { version = "1", features = ["derive"] }
thiserror = "1"
anyhow = "1"
clap = { version = "4", features = ["derive"] }
colored = "2"
dirs = "5"
figment = { version = "0.10", features = ["toml", "env"] }
fs2 = "0.4"
libc = "0.2"
walkdir = "2"
futures-util = "0.3"
tokio = { version = "1", features = ["full"] }
tokio-util = "0.7"
tracing = "0.1"
tracing-appender = "0.2"
tracing-subscriber = { version = "0.3", features = ["env-filter", "json"] }
axum = "0.7"
tower-http = { version = "0.5", features = ["trace"] }
reqwest = { version = "0.12", default-features = false, features = ["json", "stream"] }
rusqlite = { version = "0.31", features = ["bundled"] }
metrics-exporter-prometheus = { version = "0.15", default-features = false }

[dev-dependencies]
tempfile = "3"

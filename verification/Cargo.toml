[package]
name = "cobweb"
version = "1.1.0"
edition = "2021"
publish = false

[dependencies]
url = "=2.5.8"
globset = "=0.4.21"
psl = "=2.1.246"
regex = "=1.13.1"
base64 = "=0.22.1"
tokio = { version = "=1.54.1", features = ["full"] }
axum = { version = "=0.8.9", features = ["ws"] }
tower = "=0.5.3"
tower-http = { version = "=0.6.11", features = ["catch-panic", "limit", "trace"] }
serde = { version = "=1.0.229", features = ["derive"] }
serde_json = "=1.0.154"
toml = "=0.9.8"
chrono = { version = "=0.4.45", features = ["serde"] }
clap = { version = "=4.6.7", features = ["derive", "env"] }
tracing = "=0.1.44"
tracing-subscriber = { version = "=0.3.23", features = ["env-filter"] }
futures-util = "=0.3.34"
tokio-tungstenite = "=0.24.0"
hickory-resolver = "=0.26.3"
libc = "=0.2.191"
async-trait = "=0.1.92"
thiserror = "=2.0.21"
anyhow = "=1.0.104"

[package]
name = "dino"
version = "0.1.0"
edition = "2021"
publish = false

[dependencies]
anyhow = "1"
arc-swap = "1"
askama = "0.12"
axum = "0.7"
blake3 = "1"
clap = { version = "4", features = ["derive"] }
dashmap = "6"
dialoguer = "0.11"
git2 = { version = "0.19", default-features = false }
glob = "0.3"
matchit = "0.8"
notify = "6"
notify-debouncer-mini = "0.4"
regex = "1"
rquickjs = "0.6"
serde = { version = "1", features = ["derive"] }
serde_yaml = "0.9"
tokio = { version = "1", features = ["rt-multi-thread", "macros", "net", "sync"] }
tokio-stream = "0.1"
tracing = "0.1"
tracing-subscriber = "0.3"
url = "2"

[package]
name = "cortiq-gateway"
version = "0.2.1"
edition = "2021"
publish = false

[dependencies]
anyhow = "1"
arc-swap = "1"
async-stream = "0.3"
async-trait = "0.1"
axum = "0.7"
bytes = "1"
clap = { version = "4", features = ["derive"] }
futures = "0.3"
getrandom = "0.2"
mime_guess = "2"
reqwest = { version = "0.12", default-features = false, features = ["json", "stream", "rustls-tls"] }
rust-embed = "8"
serde = { version = "1", features = ["derive"] }
serde_json = "1"
thiserror = "1"
tokio = { version = "1", features = ["full"] }
toml = "0.8"
tracing = "0.1"
tracing-subscriber = { version = "0.3", features = ["env-filter"] }

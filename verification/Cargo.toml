[package]
name = "crab_router"
version = "1.0.0"
edition = "2021"
publish = false

[dependencies]
anyhow = "1"
axum = "0.8"
bitcoin = "0.32"
chrono = "0.4"
clap = { version = "4", features = ["derive"] }
dirs = "*"
prometheus = "0.13"
rand = "0.8"
rusqlite = { version = "*", features = ["bundled"] }
tokio = { version = "1", features = ["full"] }
tracing = "0.1"
tracing-subscriber = { version = "0.3", features = ["env-filter"] }

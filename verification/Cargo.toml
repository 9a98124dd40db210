[package]
name = "rl_stats_overlay"
version = "0.1.0"
edition = "2021"
publish = false

[dependencies]
anyhow = "1"
axum = "0.7"
clap = { version = "4", features = ["derive"] }
dirs = "5"
mime_guess = "2"
once_cell = "1"
parking_lot = "0.12"
rusqlite = { version = "0.31", features = ["bundled"] }
rust-embed = "8"
rust-ini = "0.21"
serde = { version = "1", features = ["derive"] }
serde_json = "1"
tokio = { version = "1", features = ["rt-multi-thread", "macros", "net", "time", "io-util", "sync"] }
tracing = "0.1"
tracing-appender = "0.2"
tracing-subscriber = { version = "0.3", features = ["env-filter"] }

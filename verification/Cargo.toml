[package]
name = "sov_core"
version = "0.1.0"
edition = "2021"
publish = false

[dependencies]
chrono = "*"
clap = { version = "*", features = ["derive"] }
color-eyre = "*"
dashmap = "*"
dirs = "*"
linkify = "*"
ropey = "*"
rusqlite = "*"
serde = { version = "*", features = ["derive"] }
serde_json = "*"
serde_yaml = "*"
thiserror = "*"
tokio = { version = "*", features = ["macros", "rt-multi-thread", "io-std"] }
toml = "*"
tower-lsp = "*"
tracing = "*"
tracing-subscriber = "*"
walkdir = "*"

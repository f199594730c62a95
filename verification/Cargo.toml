[package]
name = "coop_server"
version = "0.1.0"
edition = "2021"
publish = false

[dependencies]
chrono = "*"
tokio = { version = "*", features = ["rt-multi-thread", "net", "time", "macros", "signal", "sync"] }
serde = { version = "*", features = ["derive"] }
toml = "*"
anyhow = "*"
tracing = "*"
tracing-subscriber = { version = "*", features = ["env-filter"] }

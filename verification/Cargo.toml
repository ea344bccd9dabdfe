[package]
name = "dialer"
version = "0.1.0"
edition = "2021"
publish = false

[dependencies]
rusqlite = { version = "=0.40.2", features = ["bundled", "fallible_uint"] }
tokio = { version = "*", features = ["rt-multi-thread", "macros", "time", "net"] }
axum = "*"
reqwest = { version = "*", default-features = false }
surge-ping = "*"
dns-lookup = "*"
serde = { version = "*", features = ["derive"] }
toml = "*"
chrono = "*"
clap = { version = "*", features = ["derive"] }
anyhow = "*"
r2d2 = "*"
r2d2_sqlite = "=0.35.0"
tracing = "*"
tracing-subscriber = { version = "*", features = ["env-filter"] }

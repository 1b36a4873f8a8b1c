[package]
name = "reelcast"
version = "0.1.0"
edition = "2021"
publish = false

[dependencies]
percent-encoding = "=2.3.2"
uuid = "=1.29.0"
qrcode = { version = "=0.14.1", default-features = false, features = ["svg"] }
anyhow = "=1.0.104"
axum = "=0.7.9"
axum-server = { version = "=0.7.3", features = ["tls-rustls"] }
clap = { version = "=4.6.7", features = ["derive", "env"] }
dirs-next = "=2.0.0"
rust-embed = { version = "=8.13.0", features = ["interpolate-folder-path"] }
serde = { version = "=1.0.229", features = ["derive"] }
serde_json = "=1.0.154"
sqlx = { version = "=0.8.6", default-features = false, features = ["runtime-tokio", "sqlite", "macros", "migrate"] }
thiserror = "=1.0.69"
tokio = { version = "=1.54.1", features = ["full"] }
tower = { version = "=0.4.13", features = ["util"] }
tower-http = { version = "=0.5.2", features = ["cors", "fs", "trace"] }
tracing = "=0.1.44"
tracing-subscriber = { version = "=0.3.23", features = ["env-filter"] }
walkdir = "=2.5.0"

[dev-dependencies]
regex-lite = "=0.1.9"

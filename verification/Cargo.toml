[package]
name = "rss-saved-queue"
version = "0.1.0"
edition = "2021"
publish = false

[dependencies]
axum = "0.7"
base64 = "0.22"
chrono = "0.4"
http = "1"
rand = "0.9"
serde = { version = "1", features = ["derive"] }
serde_json = "1"
sha2 = "0.10"
sqlx = { version = "0.8", default-features = false, features = ["runtime-tokio", "sqlite", "derive", "macros", "migrate"] }
thiserror = "2"
tokio = { version = "1", features = ["full"] }
tower_governor = "0.4"
tower-http = { version = "0.5", features = ["fs", "set-header"] }
tracing = "0.1"
tracing-subscriber = { version = "0.3", features = ["json", "env-filter"] }
url = "2"

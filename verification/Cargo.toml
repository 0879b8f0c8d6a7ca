[package]
name = "bdk_sqlx"
version = "0.1.0"
edition = "2021"
publish = false

[dependencies]
bdk_wallet = "=1.0.0"
serde = { version = "1", features = ["derive"] }
serde_json = "1"
sqlx = { version = "0.8", default-features = false, features = ["runtime-tokio", "postgres", "migrate", "json", "macros", "derive"] }
thiserror = "1"
tokio = { version = "1", features = ["sync"] }
tracing = "0.1"

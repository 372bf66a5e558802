[package]
name = "stock_sim"
version = "0.1.0"
edition = "2021"
publish = false

[dependencies]
anyhow = "1"
argon2 = "=0.5.3"
axum = { version = "=0.8.9", features = ["ws"] }
chrono = "0.4"
jsonwebtoken = "=9.3.1"
password-hash = { version = "=0.5.0", features = ["getrandom"] }
serde = { version = "1", features = ["derive"] }
serde_json = "1"
tokio = { version = "1", features = ["rt-multi-thread", "macros", "time", "sync", "net"] }

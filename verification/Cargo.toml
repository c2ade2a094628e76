[package]
name = "log_kv"
version = "0.1.0"
edition = "2021"
publish = false

[dependencies]
chrono = "*"
rand = "*"
tokio = { version = "*", features = ["full"] }
sqlx = { version = "*", default-features = false, features = ["runtime-tokio", "sqlite"] }

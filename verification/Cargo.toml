[package]
name = "tracker_core"
version = "0.1.0"
edition = "2021"
publish = false

[dependencies]
sha1 = "*"
tokio = { version = "*", features = ["full"] }
axum = "*"
sqlx = { version = "*", default-features = false, features = ["runtime-tokio", "sqlite"] }

[package]
name = "message_board"
version = "0.1.0"
edition = "2021"
publish = false

[dependencies]
aes = "*"
ammonia = "*"
anyhow = "*"
axum = { version = "*", features = ["ws"] }
base64 = "*"
cbc = { version = "*", features = ["alloc"] }
chrono = { version = "*", features = ["serde"] }
dotenvy = "*"
futures = "*"
rand = "*"
rustrict = "*"
serde = { version = "*", features = ["derive"] }
serde_json = "*"
sqlx = { version = "*", default-features = false, features = ["runtime-tokio", "tls-rustls", "postgres", "uuid", "chrono"] }
tokio = { version = "*", features = ["full"] }
uuid = { version = "*", features = ["v4"] }

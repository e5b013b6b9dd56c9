[package]
name = "auth_core"
version = "0.1.0"
edition = "2021"
publish = false

[dependencies]
jsonwebtoken = { version = "=11.1.0", features = ["rust_crypto"] }
argon2 = { version = "=0.5.3", features = ["std"] }
chrono = "=0.4.45"
serde = { version = "=1.0.229", features = ["derive"] }
axum = "=0.8.9"
tokio = { version = "=1.53.2", features = ["macros", "rt-multi-thread", "net"] }
mysql = { version = "=25.0.1", default-features = false, features = ["minimal-rust"] }
dotenvy = "=0.15.7"

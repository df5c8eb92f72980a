[package]
name = "oxyd_core"
version = "0.1.0"
edition = "2021"
publish = false

[dependencies]
regex = "1"
sha2 = "0.10"
hex = "0.4"
base64 = "0.22"
rand = "0.8"
argon2 = "0.5"
anyhow = "1"
axum = "0.8"
sqlx = { version = "0.8", default-features = false, features = ["runtime-tokio", "postgres", "json", "chrono"] }
tokio = { version = "1", features = ["full"] }
serde = { version = "1", features = ["derive"] }
serde_json = "1"
jsonwebtoken = "9"
moka = { version = "0.12", features = ["future"] }
chrono = "0.4"
dotenvy = "0.15"
tracing = "0.1"

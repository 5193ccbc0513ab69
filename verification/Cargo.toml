[package]
name = "schedule_api"
version = "0.1.0"
edition = "2021"
publish = false

[dependencies]
argon2 = "=0.5.3"
password-hash = { version = "=0.5.0", features = ["getrandom"] }
hmac = "=0.12.1"
sha2 = "=0.10.9"
jwt = "=0.16.0"
uuid = "=1.29.0"
serde = { version = "=1.0.229", features = ["derive"] }
axum = { version = "=0.7.9", features = ["multipart"] }
tokio = { version = "=1.54.1", features = ["full"] }
sqlx = { version = "=0.8.6", default-features = false, features = ["sqlite", "runtime-tokio", "json", "migrate", "derive"] }
csv = "=1.4.0"
toml = "=0.8.23"
tower-http = { version = "=0.5.2", features = ["cors"] }
utoipa = "=4.2.3"

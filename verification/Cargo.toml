[package]
name = "void_eid_backend"
version = "0.1.0"
edition = "2021"
publish = false

[dependencies]
anyhow = "1"
axum = "0.8"
base64 = "=0.22.1"
bcrypt = "=0.19.3"
chrono = { version = "=0.4.45", features = ["serde"] }
dotenvy = "0.15"
hex = "=0.4.3"
jsonwebtoken = "9"
rand = "=0.9.5"
reqwest = { version = "0.12", default-features = false, features = ["json", "rustls-tls"] }
serde = { version = "1", features = ["derive"] }
serde_json = "1"
sha2 = "=0.10.9"
sqlx = { version = "0.8", default-features = false, features = ["runtime-tokio", "sqlite", "chrono", "macros", "migrate"] }
sui-sdk = "0.0.0"
tokio = { version = "1", features = ["full"] }
tower-http = { version = "0.6", features = ["cors"] }
tower_governor = "0.8"
urlencoding = "=2.1.3"
utoipa = { version = "5", features = ["axum_extras", "chrono"] }
utoipa-scalar = { version = "0.3", features = ["axum"] }
uuid = { version = "=1.29.0", features = ["v4"] }

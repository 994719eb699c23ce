[package]
name = "bifrost"
version = "0.1.0"
edition = "2021"
publish = false

[dependencies]
ring = "=0.17.14"
jsonwebtoken = "=9.3.1"
nanoid = "=0.5.0"
chrono = "=0.4.45"
serde = { version = "=1.0.229", features = ["derive"] }
serde_json = "=1.0.151"
actix-web = "=4.15.0"
sqlx = { version = "=0.9.0", features = ["runtime-tokio", "postgres"] }
redis = "=1.7.1"

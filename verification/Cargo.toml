[package]
name = "flinderax"
version = "0.1.0"
edition = "2021"
publish = false

[dependencies]
prost = { version = "*", default-features = false, features = ["std"] }
time = { version = "*", features = ["parsing", "formatting", "macros"] }
nanoid = "*"
axum = "*"
tokio = { version = "*", features = ["macros", "rt-multi-thread", "net", "time"] }
sqlx = { version = "*", default-features = false, features = ["runtime-tokio", "sqlite"] }
redis = { version = "*", features = ["tokio-comp", "connection-manager"] }
serde = { version = "*", features = ["derive"] }
serde_json = "*"
tracing = "*"
tracing-subscriber = { version = "*", features = ["env-filter"] }
tower-http = { version = "*", features = ["cors", "trace"] }
argon2 = "*"
rusty_paseto = "*"
base64 = "*"
dotenvy = "*"

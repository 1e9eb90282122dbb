[package]
name = "minichain"
version = "0.1.0"
edition = "2021"
publish = false

[dependencies]
anyhow = "*"
axum = "*"
axum-server = "*"
dotenvy = "*"
getrandom = "*"
hex = "*"
lazy_static = "*"
secp256k1 = { version = "*", features = ["rand"] }
serde = { version = "*", features = ["derive"] }
serde_json = "*"
sha256 = "*"
tokio = { version = "*", features = ["macros", "rt", "rt-multi-thread", "sync"] }
tower-http = { version = "*", features = ["cors"] }
tracing = "*"
tracing-subscriber = "*"

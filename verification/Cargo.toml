[package]
name = "gateway_core"
version = "0.1.0"
edition = "2021"
publish = false

[dependencies]
anyhow = "*"
axum = "*"
base64 = "*"
chrono = { version = "*", default-features = false, features = ["clock"] }
hex = "*"
jsonwebtoken = { version = "*", features = ["rust_crypto"] }
rand = "*"
ring = "*"
serde = { version = "*", features = ["derive"] }
serde_json = "*"
tokio = { version = "*", features = ["full"] }
uuid = { version = "*", features = ["v4"] }
xid = "*"

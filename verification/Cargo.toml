[package]
name = "uvwa"
version = "0.1.0"
edition = "2021"
publish = false

[dependencies]
anyhow = "*"
async-trait = "*"
axum = "*"
moka = { version = "*", features = ["future"] }
serde = { version = "*", features = ["derive"] }
serde_json = "*"
sonyflake = "*"
tokio = { version = "*", features = ["full"] }
validator = { version = "*", features = ["derive"] }

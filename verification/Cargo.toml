[package]
name = "axum_flash"
version = "0.1.0"
edition = "2021"
publish = false

[dependencies]
cookie = { version = "*", features = ["signed"] }
http = "*"
tower-layer = "*"
tower-service = "*"
axum-core = "*"
async-trait = "*"

[dev-dependencies]
serde_json = "*"

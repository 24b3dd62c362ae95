[package]
name = "fastviz"
version = "0.1.0"
edition = "2021"
publish = false

[dependencies]
serde = { version = "1", features = ["derive"] }
toml = "*"
glam = "*"
log = "*"
env_logger = "*"
anyhow = "*"
parking_lot = "*"
serde_json = "*"
urdf-rs = "*"

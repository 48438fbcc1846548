[package]
name = "melnet_client"
version = "0.1.0"
edition = "2021"
publish = false

[dependencies]
async-net = "*"
dashmap = "*"
lazy_static = "*"
log = "*"
serde = { version = "*", features = ["derive"] }
smol = "*"
smol-timeout = "*"
stdcode = "*"

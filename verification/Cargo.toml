[package]
name = "sandforge"
version = "0.1.0"
edition = "2021"
publish = false

[dependencies]
fastrand = "2"
rand = "0.8"
async-channel = "2"
bevy_utils = "0.13"
bevy_math = "0.13"
serde = { version = "1", features = ["derive"] }
serde_yaml = "0.9"
dashmap = "5"
ahash = "0.8"
lazy_static = "1"

[package]
name = "launchpad"
version = "0.1.0"
edition = "2021"
publish = false

[dependencies]
bytemuck = { version = "1", features = ["derive"] }
cosmic-text = "*"
image = { version = "*", default-features = false, features = ["png"] }
serde = { version = "=1.0.229", features = ["derive"] }
serde_json = "=1.0.154"
sys-locale = "=0.3.2"

[package]
name = "appearance-profiles"
version = "0.1.0"
edition = "2021"
publish = false

[dependencies]
serde = { version = "1", features = ["derive"] }
toml = "*"
thiserror = "*"
image = { version = "*", default-features = false, features = ["png", "jpeg"] }

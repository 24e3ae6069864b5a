[package]
name = "tile_packer"
version = "0.2.0"
edition = "2021"
publish = false

[dependencies]
anyhow = "1"
image = { version = "0.25", default-features = false, features = ["png", "jpeg", "webp"] }
regex = "1"
serde = { version = "1", features = ["derive"] }
serde_json = "1"

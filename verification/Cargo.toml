[package]
name = "texture_stacker"
version = "0.1.0"
edition = "2021"
publish = false

[dependencies]
png = "0.17"
serde = { version = "1", features = ["derive"] }
toml = "0.8"

[package]
name = "renki"
version = "0.0.2"
edition = "2021"
publish = false

[dependencies]
serde = { version = "=1.0.229", default-features = false, features = ["derive", "std"] }
toml = "=1.1.8"

[dev-dependencies]
tempfile = "=3.27.0"

[package]
name = "rad"
version = "0.2.1"
edition = "2021"
publish = false

[dependencies]
colored = "*"
serde = { version = "1", features = ["derive"] }
toml = "*"

[package]
name = "steel"
version = "0.1.0"
edition = "2021"
publish = false

[dependencies]
shipyard = "*"
indexmap = "*"
serde = { version = "*", features = ["derive"] }
serde_json = "*"
glam = "*"

[package]
name = "diagonator"
version = "0.1.0"
edition = "2021"
publish = false

[dependencies]
dirs = "*"
serde = { version = "1", features = ["derive"] }
toml_edit = { version = "0.14", features = ["easy"] }

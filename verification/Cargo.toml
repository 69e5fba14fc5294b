[package]
name = "semantics"
version = "0.1.0"
edition = "2021"
publish = false

[dependencies]
rowan = "*"
rustc-hash = "2"
salsa = "*"
serde = { version = "1", features = ["derive"] }

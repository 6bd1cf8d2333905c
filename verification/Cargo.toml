[package]
name = "scie"
version = "0.1.0"
edition = "2021"
publish = false

[dependencies]
regex = "1"
serde = { version = "1", features = ["derive"] }
dyn-clone = "1"
erased-serde = "0.4"

[package]
name = "deaftone"
version = "0.1.0"
edition = "2021"
publish = false

[dependencies]
chrono = "0.4"
config = "0.13"
metaflac = "0.2"
serde = { version = "1.0", features = ["derive"] }
walkdir = "2"

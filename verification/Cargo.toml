[package]
name = "dirscan"
version = "0.1.0"
edition = "2021"
publish = false

[dependencies]
walkdir = "*"
serde = { version = "*", features = ["derive"] }
serde_json = "*"

[package]
name = "dygpi"
version = "0.1.0"
edition = "2021"
publish = false

[dependencies]
libloading = "0.7"
search_path = "*"
log = "0.4"
serde = { version = "1", features = ["derive"] }

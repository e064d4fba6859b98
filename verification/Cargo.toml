[package]
name = "msgboard"
version = "0.1.0"
edition = "2021"
publish = false

[dependencies]
rand = "=0.8.8"
rocket = "=0.5.2"
rusqlite = { version = "=0.41.0", features = ["fallible_uint"] }

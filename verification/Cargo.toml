[package]
name = "pyxel_engine"
version = "0.1.0"
edition = "2021"
publish = false

[dependencies]
parking_lot = "*"
chrono = "*"
platform-dirs = "*"
zip = { version = "*", default-features = false }

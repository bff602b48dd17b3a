[package]
name = "d5"
version = "0.1.0"
edition = "2021"
publish = false

[dependencies]
base64 = "0.10"
warp = { version = "0.1", default-features = false }

[package]
name = "srng"
version = "0.1.0"
edition = "2021"
publish = false

[dependencies]
roxmltree = "*"
base64 = "*"
ttf-parser = "*"
image = { version = "*", default-features = false, features = ["png", "jpeg", "gif", "webp"] }
resvg = { version = "*", default-features = false }

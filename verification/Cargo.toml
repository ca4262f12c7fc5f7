[package]
name = "screencap"
version = "0.1.0"
edition = "2021"
publish = false

[dependencies]
image = { version = "*", default-features = false }
webp = { version = "*", default-features = false }
minifb = { version = "*", default-features = false, features = ["x11"] }

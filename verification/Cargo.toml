[package]
name = "pixelfix"
version = "0.1.0"
edition = "2021"
publish = false

[dependencies]
image = { version = "=0.25.10", default-features = false, features = ["png"] }
indicatif = "=0.18.6"
kiddo = "=5.3.3"
rayon = "=1.12.0"
winapi = { version = "=0.3.9", features = ["winuser"] }

[package]
name = "converter"
version = "0.1.0"
edition = "2021"
publish = false

[dependencies]
osmpbf = "=0.3.8"
skia-rs-safe = "*"
glam = "*"
image = { version = "*", default-features = false, features = ["png"] }
imageproc = { version = "*", default-features = false }
psp = "*"

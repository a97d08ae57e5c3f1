[package]
name = "subpixel_buffer"
version = "0.1.0"
edition = "2021"
publish = false

[dependencies]
anyhow = "1"
bitmap-font = "*"
embedded-graphics = "*"
image = { version = "*", default-features = false, features = ["png"] }

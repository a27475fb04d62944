[package]
name = "ttfkit"
version = "0.1.0"
edition = "2021"
publish = false

[dependencies]
bitflags = "2"
image = { version = "0.25", default-features = false }

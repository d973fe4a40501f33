[package]
name = "qoi_encoder"
version = "0.1.0"
edition = "2021"
publish = false

[dependencies]
image = { version = "0.25", default-features = false, features = ["png"] }
itertools = "0.13"

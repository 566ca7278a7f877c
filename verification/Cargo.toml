[package]
name = "sos"
version = "0.1.0"
edition = "2021"
publish = false

[dependencies]
rand = { version = "=0.8.8", features = ["small_rng"] }
unicode-reverse = "=1.0.9"

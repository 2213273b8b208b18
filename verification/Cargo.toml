[package]
name = "substr"
version = "0.1.0"
edition = "2021"
publish = false

[dependencies]
arrow = { version = "53", default-features = false }
datafusion-common = { version = "42", default-features = false }
datafusion-expr = { version = "42", default-features = false }

[package]
name = "karukan"
version = "0.1.0"
edition = "2021"
publish = false

[dependencies]
anyhow = "1"
tracing = "0.1"
unicode-normalization = "0.1"

[dev-dependencies]
tempfile = "3"

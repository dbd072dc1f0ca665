[package]
name = "packdec"
version = "0.1.0"
edition = "2021"
publish = false

[dependencies]
zstd = { version = "=0.14.0", features = ["experimental"] }
zstd-safe = { version = "=8.0.0", features = ["experimental"] }
encoding = "=0.2.33"

[package]
name = "transcode_cache"
version = "0.1.0"
edition = "2021"
publish = false

[dependencies]
redis = { version = "*", features = ["tokio-comp"] }
eyre = "*"
rustls = { version = "*", default-features = false, features = ["ring", "std"] }
ctor = "*"

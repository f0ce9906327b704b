[package]
name = "squawkbus"
version = "0.1.0"
edition = "2021"
publish = false

[dependencies]
argh = "*"
env_logger = "*"
log = "*"
regex = "*"
rustls-pemfile = "*"
rustls-pki-types = "*"
tokio = { version = "*", features = ["full"] }
tokio-rustls = "*"
uuid = { version = "*", features = ["v4"] }

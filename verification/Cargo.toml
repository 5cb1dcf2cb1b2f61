[package]
name = "license_codec"
version = "0.1.0"
edition = "2021"
publish = false

[dependencies]
anyhow = "=1.0.104"
clap = { version = "=4.6.7", features = ["derive"] }
zip = { version = "=9.0.5", default-features = false, features = ["time"] }

[package]
name = "hipfire"
version = "0.1.0"
edition = "2021"
publish = false

[dependencies]
serde_json = "1"
libloading = "0.8"
image = { version = "0.25", default-features = false, features = ["jpeg", "png"] }

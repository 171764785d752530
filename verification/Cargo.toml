[package]
name = "mqtt5_codec"
version = "0.1.0"
edition = "2021"
publish = false

[dependencies]
bytes = "1"
sha1 = "0.10"
base64 = "0.13"
tokio-util = { version = "0.7", features = ["codec"] }

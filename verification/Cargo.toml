[package]
name = "vosk"
version = "0.1.0"
edition = "2021"
publish = false

[dependencies]
vosk-sys = "*"

[dev-dependencies]
serde_json = "*"

[package]
name = "whisperkey_core"
version = "0.1.0"
edition = "2021"
publish = false

[dependencies]
regex = "*"
webrtc-vad = "*"
nnnoiseless = "*"

[dev-dependencies]
serde_json = "*"

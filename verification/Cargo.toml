[package]
name = "rtpsip"
version = "0.1.0"
edition = "2021"
publish = false

[dependencies]
aes = "0.8"
audio-codec-algorithms = "*"
base64 = "0.22"
bytes = "1"
dashmap = "6"
hmac = "0.12"
parking_lot = "0.12"
rand = "0.8"
rtp = "0.11"
serde = { version = "1", features = ["derive"] }
sha1 = "0.10"
tokio = { version = "1", features = ["net", "sync", "time", "rt", "macros"] }
tracing = "0.1"
webrtc-util = { version = "0.9", default-features = false, features = ["marshal"] }

[package]
name = "afsk_aprs"
version = "0.1.0"
edition = "2021"
publish = false

[dependencies]
crc = "3"
hound = "3"
warp = "0.3"
tokio = { version = "1", features = ["macros", "rt-multi-thread"] }
serde = { version = "1", features = ["derive"] }
serde_json = "1"
futures = "0.3"
bytes = "1"
base64 = "0.22"

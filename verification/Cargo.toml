[package]
name = "srtp_core"
version = "0.1.0"
edition = "2021"
publish = false

[dependencies]
aes = "=0.9.3"
hmac = "=0.13.0"
sha1 = "=0.11.0"
aes-gcm = { version = "=0.11.1", features = ["hazmat"] }

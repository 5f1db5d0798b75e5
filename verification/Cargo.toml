[package]
name = "tesseract"
version = "0.1.0"
edition = "2021"
publish = false

[dependencies]
aes-gcm = "0.10"
sha2 = "0.10"
getrandom = "0.2"
zeroize = "1"
serde_json = "1"
parking_lot = "0.12"
async-broadcast = "0.7"
futures = "0.3"
async-stream = "0.3"

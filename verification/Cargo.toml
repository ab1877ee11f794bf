[package]
name = "secure_storage"
version = "0.1.0"
edition = "2021"
publish = false

[dependencies]
aes = "=0.7.5"
base64 = "=0.10.1"
block-modes = "=0.8.1"
chrono = "0.4"
dirs = "=1.0.5"
fern = { version = "=0.5.9", features = ["colored"] }
flutter-engine = "=0.2.1"
log = "0.4"
rand = "=0.6.5"
serde_json = "1.0"

[package]
name = "mv_core"
version = "0.1.0"
edition = "2021"
publish = false

[dependencies]
blake3 = "=1.8.7"
chrono = "=0.4.45"
hex = "=0.4.3"
serde = { version = "=1.0.229", features = ["derive"] }
serde_json = "=1.0.154"
libsodium-sys-stable = "=1.24.3"
rusqlite = { version = "=0.41.1", features = ["bundled"] }
walkdir = "=2.5.0"
uuid = { version = "=1.29.0", features = ["v4"] }
infer = "=0.22.0"
thiserror = "=2.0.21"
kamadak-exif = "0.6"
image = { version = "0.25", default-features = false, features = ["jpeg", "png", "webp", "gif", "bmp", "tiff"] }
secrecy = "0.10"
zeroize = "1"

[package]
name = "carbonpaper"
version = "0.1.0"
edition = "2021"
publish = false

[dependencies]
base64 = "=0.22.1"
chrono = "=0.4.45"
hex = "=0.4.3"
image = { version = "=0.25.10", default-features = false, features = ["jpeg", "png"] }
indexmap = { version = "=2.14.2", features = ["serde"] }
md-5 = "=0.10.6"
memmap2 = "=0.9.12"
rand = "=0.8.8"
regex = "=1.13.1"
serde = { version = "=1.0.229", features = ["derive"] }
serde_json = { version = "=1.0.154", features = ["float_roundtrip"] }
sha2 = "=0.10.9"
sysinfo = { version = "=0.40.1", default-features = false, features = ["disk", "system"] }
tokio = { version = "=1.54.1", features = ["rt", "sync", "time"] }
usearch = { version = "=2.26.6", default-features = false }
walkdir = "=2.5.0"
zeroize = "=1.9.1"

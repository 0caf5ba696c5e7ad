[package]
name = "otr"
version = "0.1.0"
edition = "2021"
publish = false

[dependencies]
anyhow = "=1.0.104"
base64 = "=0.22.1"
block-modes = "=0.8.1"
blowfish = "=0.8.0"
chrono = "=0.4.45"
clap = { version = "=4.6.7", features = ["derive"] }
dirs = "=5.0.1"
duct = "=0.13.7"
ffprobe = "=0.4.0"
hex = "=0.4.3"
md-5 = "=0.10.6"
quick-xml = { version = "=0.42.0", features = ["serialize"] }
rand = "=0.8.8"
random-string = "=1.1.0"
regex = "1"
reqwest = { version = "=0.11.27", default-features = false, features = ["blocking", "multipart"] }
serde = { version = "=1.0.229", features = ["derive"] }
serde_json = "=1.0.151"

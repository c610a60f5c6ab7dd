[package]
name = "anise"
version = "0.1.0"
edition = "2021"
publish = false

[dependencies]
hifitime = "=4.3.1"
indexmap = "=2.14.2"
url = "=2.5.8"
crc32fast = "=1.5.4"
platform-dirs = "=0.3.0"
reqwest = { version = "=0.12.28", default-features = false, features = ["blocking", "default-tls"] }
serde = { version = "=1.0.229", features = ["derive"] }
serde_dhall = "=0.12.1"
csv = "=1.4.0"

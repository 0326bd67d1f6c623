[package]
name = "exifweb"
version = "0.1.0"
edition = "2021"
publish = false

[dependencies]
regex = "1"
regex-syntax = "0.8"
serde = { version = "1", features = ["derive"] }
serde_json = "1"
toml = "0.8"
ron = "0.8"
chrono = "0.4"
url = "2"
encoding = "0.2"
serde-xml-rs = "0.6"
colored = "2"

[package]
name = "oss_rust_sdk"
version = "0.1.0"
edition = "2021"
publish = false

[dependencies]
base64 = "0.13"
hmac = "0.12"
sha1 = "0.10"
chrono = "0.4"
httpdate = "1"
reqwest = { version = "0.11", default-features = false, features = ["blocking"] }
quick-xml = { version = "0.31", features = ["serialize"] }
serde = { version = "1", features = ["derive"] }
async-trait = "0.1"
bytes = "1"

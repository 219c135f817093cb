[package]
name = "msfx"
version = "0.1.0"
edition = "2021"
publish = false

[dependencies]
base64 = "0.22"
chrono = "0.4"
rust_decimal = "1"
serde_json = "1"

[package]
name = "scheduler"
version = "0.1.0"
edition = "2021"
publish = false

[dependencies]
base64 = "=0.13.1"
byteorder = "=1.5.0"
serde_json = "=1.0.154"
rand = "=0.8.8"
mbedtls = "=0.5.4"

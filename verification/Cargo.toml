[package]
name = "tiled"
version = "0.1.0"
edition = "2021"
publish = false

[dependencies]
base64 = "0.13"
libflate = "1"
xml-rs = "0.8"
zstd = "0.13"

[package]
name = "bezel_docs"
version = "0.1.0"
edition = "2021"
publish = false

[dependencies]
base64 = "*"
serde_json = "*"
pandoc = "*"

[package]
name = "flaker"
version = "0.1.0"
edition = "2021"
publish = false

[dependencies]
base64 = "0.13"
interfaces = "*"

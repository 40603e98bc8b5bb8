[package]
name = "chat"
version = "0.1.0"
edition = "2021"
publish = false

[dependencies]
aead = "0.4"
base64 = "0.13"
chacha20poly1305 = "0.8"
ring = "0.16"
crossterm = "*"
async-std = "*"

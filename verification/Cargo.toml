[package]
name = "cynosure"
version = "0.6.0"
edition = "2021"
publish = false

[dependencies]
monoio = "0.2"
resvg = "*"

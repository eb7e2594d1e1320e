[package]
name = "tiktoken_shim"
version = "0.1.0"
edition = "2021"
publish = false

[dependencies]
base64 = "=0.22.1"
tiktoken = "=4.1.2"

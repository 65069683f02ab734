[package]
name = "psp_scan"
version = "0.1.0"
edition = "2021"
publish = false

[dependencies]
regex = "*"
lzma-rs = "*"

[package]
name = "probed_table"
version = "0.1.0"
edition = "2021"
publish = false

[dependencies]
curl-sys = "*"
libc = "*"

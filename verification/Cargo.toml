[package]
name = "smn_archive"
version = "0.1.0"
edition = "2021"
publish = false

[dependencies]
libc = "0.2"
rand = "0.8"
serde_json = "1"

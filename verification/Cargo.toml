[package]
name = "rusctp"
version = "0.1.0"
edition = "2021"
publish = false

[dependencies]
bytes = "1"
crc = "3"
rand = "0.8"

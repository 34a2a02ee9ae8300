[package]
name = "athernet"
version = "0.1.0"
edition = "2021"
publish = false

[dependencies]
crc16 = "0.4"
rand = "0.8"
cpal = "*"
libc = "0.2"

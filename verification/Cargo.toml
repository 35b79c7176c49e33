[package]
name = "gnugo_rs"
version = "0.2.0"
edition = "2021"
publish = false

[dependencies]
byteorder = "1"
libc = "0.2"
rand = "0.8"

[package]
name = "m4k"
version = "0.1.0"
edition = "2021"
publish = false

[dependencies]
arrayvec = "0.7"
once_cell = "1"
rand = "0.8"

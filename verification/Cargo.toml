[package]
name = "lc3vm"
version = "0.1.0"
edition = "2021"
publish = false

[dependencies]
byteorder = "1"
enum-map = "2"
crossterm = "0.28"

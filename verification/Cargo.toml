[package]
name = "rave"
version = "0.1.0"
edition = "2021"
publish = false

[dependencies]
byteorder = "1.5"
colored = "2"
flate2 = "1.0"

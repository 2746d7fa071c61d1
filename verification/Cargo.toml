[package]
name = "ohlc"
version = "0.1.0"
edition = "2021"
publish = false

[dependencies]
image = "*"
tempdir = "*"
serde = "*"
serde_derive = "*"

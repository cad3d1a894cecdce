[package]
name = "polkarun"
version = "0.1.0"
edition = "2021"
publish = false

[dependencies]
polkavm-common = { version = "=0.37.0", features = ["alloc"] }

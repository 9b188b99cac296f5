[package]
name = "qusim"
version = "0.1.0"
edition = "2021"
publish = false

[dependencies]
ndarray = "0.15"
num-complex = "0.4"
rand = "0.8"

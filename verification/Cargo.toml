[package]
name = "cross_correlate"
version = "0.1.0"
edition = "2021"
publish = false

[dependencies]
rustfft = "6"
num-complex = "0.4"
num-traits = "0.2"

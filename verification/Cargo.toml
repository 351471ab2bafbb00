[package]
name = "open_conv"
version = "0.1.0"
edition = "2021"
publish = false

[dependencies]
realfft = "=3.5.1"
hound = "=3.5.1"
atomic_float = "=1.1.0"

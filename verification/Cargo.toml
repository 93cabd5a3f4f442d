[package]
name = "mediapipe_wasinn_demo"
version = "0.1.0"
edition = "2021"
publish = false

[dependencies]
image = "*"
wasi-nn = "*"

[package]
name = "adobe_rgb_matrices"
version = "0.1.0"
edition = "2021"
publish = false

[dependencies]
num = "0.4"
anstream = "0.6"

[package]
name = "rasterizer"
version = "0.1.0"
edition = "2021"
publish = false

[dependencies]
glam = "=0.34.1"
image = "=0.25.10"
pixels = "=0.17.2"
win-loop = { version = "=0.10.1", features = ["winit-default"] }

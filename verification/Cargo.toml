[package]
name = "atom_overlay"
version = "0.1.0"
edition = "2021"
publish = false

[dependencies]
winit = "0.27"
pixels = "0.9"
captrs = "*"

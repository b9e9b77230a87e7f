[package]
name = "gpupe"
version = "0.1.0"
edition = "2021"
publish = false

[dependencies]
cgmath = "0.18"
gl = "0.14"
image = { version = "0.23", default-features = false, features = ["png"] }
sdl2 = "0.34"

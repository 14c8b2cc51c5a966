[package]
name = "physics_sandbox"
version = "0.1.0"
edition = "2021"
publish = false

[dependencies]
hecs = "=0.7.7"
sdl2 = "=0.38.0"

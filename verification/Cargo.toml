[package]
name = "particle_grid"
version = "0.1.0"
edition = "2021"
publish = false

[dependencies]
rand = "0.8"
sdl2 = { version = "*", features = ["gfx"] }

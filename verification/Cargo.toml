[package]
name = "panko"
version = "0.1.0"
edition = "2021"

[dependencies]
hashbrown = "*"
sdl2-sys = { version = "*", features = ["ttf", "image"] }

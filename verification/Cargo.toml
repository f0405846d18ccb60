[package]
name = "tilestream"
version = "0.1.0"
edition = "2021"
publish = false

[dependencies]
lru = "*"
image = { version = "*", default-features = false, features = ["png", "jpeg"] }
curl = "*"
gl = "*"
sdl2 = "*"
bytemuck = "*"

[package]
name = "raster"
version = "0.1.0"
edition = "2021"
publish = false

[dependencies]
random = "*"
sdl2 = { version = "*", features = ["gfx"] }
image = { version = "*", default-features = false, features = ["tga"] }
thiserror = "*"

[package]
name = "sea_birds_breakfast"
version = "0.1.0"
edition = "2021"
publish = false

[dependencies]
vecmath = "*"
rand = "*"
piston-ai_behavior = "*"
piston = "*"
piston2d-graphics = "*"
piston2d-opengl_graphics = "*"
pistoncore-sdl2_window = "*"
interpolation = "*"
sdl2 = { version = "*", features = ["mixer"] }

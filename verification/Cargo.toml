[package]
name = "battle_tok_render"
version = "0.1.0"
edition = "2021"
publish = false

[dependencies]
bytemuck = { version = "1", features = ["derive"] }
glam = "0.30"
image = { version = "0.25", default-features = false, features = ["png", "jpeg"] }
pollster = "0.4"
wgpu = "25"
winit = "0.30"

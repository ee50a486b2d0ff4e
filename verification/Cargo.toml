[package]
name = "blocks"
version = "0.1.0"
edition = "2021"
publish = false

[dependencies]
wgpu = "27"
winit = "0.30"
pollster = "0.4"
bytemuck = { version = "1", features = ["derive"] }
noise = "0.9"
rayon = "1"
enum-map = "2"
ga_generator = "*"

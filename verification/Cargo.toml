[package]
name = "black_splat"
version = "0.1.0"
edition = "2021"
publish = false

[dependencies]
anyhow = "1"
bytemuck = { version = "1", features = ["derive"] }
cgmath = "0.18"
egui = { version = "*", default-features = false, features = ["default_fonts"] }
egui-wgpu = { version = "*", default-features = false }
getrandom = "0.2"
image = { version = "0.25", default-features = false, features = ["png", "jpeg"] }
instant = "0.1"
json = "0.12"
mujoco-rs = { version = "*", default-features = false }
roxmltree = "*"
serde = { version = "1", features = ["derive"] }
serde_json = "1"
wgpu = "*"
wgpu_text = "*"
winit = "0.30"

[package]
name = "backdrop_blur"
version = "0.1.0"
edition = "2021"
publish = false

[dependencies]
bytemuck = { version = "1", features = ["derive"] }
egui = { version = "0.34", default-features = false }
egui-wgpu = { version = "0.34", default-features = false }
egui_glow = { version = "0.34", default-features = false }
glow = "0.17"
log = "0.4"
thiserror = "2"
wgpu = { version = "29", default-features = false, features = ["std", "vulkan", "wgsl"] }

[package]
name = "wisp"
version = "0.1.0"
edition = "2021"
publish = false

[dependencies]
unicode-segmentation = "1"
etagere = "*"
wgpu = "*"
winit = "*"
cosmic-text = "*"
taffy = "*"
png = "*"
pollster = "*"
bytemuck = { version = "1", features = ["derive"] }
anyhow = "1"
raw-window-handle = "0.6"
objc2 = "*"
objc2-app-kit = "*"
objc2-foundation = "*"
objc2-core-foundation = "*"
objc2-core-graphics = "*"

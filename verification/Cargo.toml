[package]
name = "layer_compositor"
version = "0.1.0"
edition = "2021"
publish = false

[dependencies]
bytemuck = "=1.25.2"
log = "=0.4.35"
rustc-hash = "=2.1.3"
tiny-skia = "=0.11.4"
wgpu = { version = "29", default-features = false, features = ["std", "wgsl"] }

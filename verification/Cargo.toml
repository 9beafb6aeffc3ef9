[package]
name = "yutani"
version = "0.1.0"
edition = "2021"
publish = false

[dependencies]
image = { version = "=0.24.9", default-features = false, features = ["png"] }
toml = "=0.8.23"
libc = "=0.2.191"
harfbuzz_rs = "=2.0.1"
nix = "=0.26.4"
bytemuck = { version = "=1.25.2", features = ["derive"] }
cgmath = "=0.18.0"
wgpu = { version = "=0.19.4", default-features = false, features = ["wgsl"] }
winit = { version = "=0.30.13", default-features = false, features = ["rwh_06", "x11"] }

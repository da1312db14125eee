[package]
name = "voxel_engine"
version = "0.1.0"
edition = "2021"
publish = false

[dependencies]
serde_json = "=1.0.154"
rayon = "=1.12.0"
glam = "=0.29.3"
specs = "=0.20.0"
bytemuck = { version = "=1.25.2", features = ["derive"] }
log = "=0.4.35"
winit = "=0.30.13"
gltf = { version = "=1.4.1", features = ["extras"] }

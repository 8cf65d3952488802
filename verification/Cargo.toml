[package]
name = "terrain_chunks"
version = "0.1.0"
edition = "2021"
publish = false

[dependencies]
anyhow = "1"
bevy = { version = "0.7", default-features = false, features = ["render", "bevy_winit", "bevy_gltf", "png", "x11"] }
bevy-inspector-egui = "0.11"
bevy_prototype_debug_lines = { version = "0.7", features = ["3d"] }
crossbeam = "0.8"
heron = { version = "3", features = ["3d"] }
noise = "0.7"
ron = "0.7"
serde = { version = "1", features = ["derive"] }

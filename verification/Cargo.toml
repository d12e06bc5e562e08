[package]
name = "roxlap_game_demo"
version = "0.1.0"
edition = "2021"
publish = false

[dependencies]
glam = "*"
legion = "*"
rand = "*"
rayon = "*"
bytemuck = "*"
raw-window-handle = "*"
egui = "*"
roxlap-core = "*"
roxlap-formats = "*"
roxlap-cavegen = "*"
roxlap-gpu = { version = "*", default-features = false }

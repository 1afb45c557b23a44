[package]
name = "planet_voxels"
version = "0.1.0"
edition = "2021"
publish = false

[dependencies]
bevy = { version = "0.16", default-features = false, features = ["std"] }
noise = "0.9"
rand = "0.9"
once_cell = "1"

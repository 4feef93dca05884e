[package]
name = "asteroid_field"
version = "0.1.0"
edition = "2021"
publish = false

[dependencies]
noise = { version = "=0.8.2", default-features = false }
queues = "=1.1.0"
bevy = { version = "0.11", default-features = false }
bevy_xpbd_3d = { version = "0.2", default-features = false, features = ["3d", "f32"] }

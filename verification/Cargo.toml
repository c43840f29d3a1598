[package]
name = "bevy_sepax2d"
version = "0.4.0"
edition = "2021"

[dependencies]
sepax2d = { version = "0.3", features = ["serde"] }
bevy = { version = "0.9", default-features = false }
bevy_prototype_lyon = "0.7"
serde = { version = "1", features = ["derive"] }

[package]
name = "rolling_ball"
version = "0.1.0"
edition = "2021"
publish = false

[dependencies]
bevy = { version = "=0.10.1", default-features = false, features = ["bevy_asset", "bevy_core_pipeline", "bevy_pbr", "bevy_render", "bevy_text", "bevy_ui", "bevy_winit", "x11"] }
bevy_rapier3d = { version = "=0.21.0", default-features = false, features = ["dim3", "async-collider", "debug-render-3d"] }

[package]
name = "viewer"
version = "0.1.0"
edition = "2021"
publish = false

[dependencies]
bevy = { version = "0.16", default-features = false, features = ["std", "async_executor", "bevy_asset", "bevy_color", "bevy_core_pipeline", "bevy_gizmos", "bevy_log", "bevy_pbr", "bevy_render", "bevy_window", "bevy_winit", "png", "tonemapping_luts", "x11"] }
bevy_image = "0.16"

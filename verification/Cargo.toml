[package]
name = "asteroids"
version = "0.1.0"
edition = "2021"
publish = false

[dependencies]
rand = "0.8"
bevy = { version = "0.8", default-features = false, features = ["bevy_asset", "bevy_core_pipeline", "bevy_render", "bevy_sprite", "bevy_winit", "png", "x11"] }
bevy_prototype_lyon = "0.6"
bevy-inspector-egui = "0.12"
derive_more = "0.99"

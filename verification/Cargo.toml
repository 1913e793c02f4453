[package]
name = "bevy_save"
version = "0.1.0"
edition = "2021"
publish = false

[dependencies]
bevy = { version = "0.10", default-features = false, features = ["bevy_asset", "bevy_render", "bevy_sprite"] }
bevy_ecs_tilemap = { version = "0.10", default-features = false }
serde = "1"
serde_json = "1"

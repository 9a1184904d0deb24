[package]
name = "blockshot"
version = "0.1.0"
edition = "2021"
publish = false

[dependencies]
bevy = { version = "0.16", default-features = false, features = ["std", "bevy_asset", "bevy_color", "bevy_core_pipeline", "bevy_render", "bevy_sprite", "bevy_state", "bevy_window"] }
bevy_asset_loader = { version = "0.23", default-features = false, features = ["2d"] }
iyes_progress = { version = "0.14", default-features = false }

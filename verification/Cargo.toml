[package]
name = "station"
version = "0.1.0"
edition = "2021"
publish = false

[dependencies]
bevy = { version = "=0.16.1", default-features = false, features = ["std", "bevy_asset", "bevy_color", "bevy_core_pipeline", "bevy_render", "bevy_sprite", "bevy_ui", "bevy_window"] }
bevy_renet = { version = "=2.0.1", default-features = false, features = ["netcode"] }
bincode = "=1.3.3"
rand = "=0.8.5"
serde = { version = "1", features = ["derive"] }

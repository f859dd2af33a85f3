[package]
name = "bear_island"
version = "0.1.0"
edition = "2021"
publish = false

[dependencies]
rand = "=0.10.3"
wincode = { version = "=0.6.3", features = ["derive"] }
bevy = { version = "=0.18.1", default-features = false, features = ["bevy_ui", "bevy_state", "bevy_window", "bevy_sprite", "bevy_text", "bevy_asset"] }

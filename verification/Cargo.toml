[package]
name = "bevy_animation_state_machine"
version = "0.1.0"
edition = "2021"
publish = false

[dependencies]
indexmap = "2"
bevy = { version = "0.12", default-features = false, features = ["bevy_asset"] }

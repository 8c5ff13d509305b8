[package]
name = "overmatch"
version = "0.1.0"
edition = "2021"

[dependencies]
bevy = { version = "=0.19.1", default-features = false, features = ["std", "async_executor", "bevy_asset", "bevy_state", "bevy_color", "keyboard", "mouse"] }
ron = "0.12"
serde = { version = "1", features = ["derive"] }

[package]
name = "bevy_local_storage"
version = "0.1.0"
edition = "2021"
publish = false

[dependencies]
bevy = { version = "0.14", default-features = false, features = ["bevy_asset", "bevy_scene"] }
web-sys = { version = "0.3", features = ["Window", "Storage"] }
futures-io = "0.3"

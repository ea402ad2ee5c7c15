[package]
name = "bevy_autoplay"
version = "0.1.0"
edition = "2021"
publish = false

[dependencies]
bevy = { version = "0.13", default-features = false }
chrono = { version = "0.4", default-features = false, features = ["clock"] }

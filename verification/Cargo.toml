[package]
name = "tetris"
version = "0.1.0"
edition = "2021"
publish = false

[dependencies]
rand = "=0.7.3"
bevy = { version = "0.6", default-features = false, features = ["render", "bevy_winit", "png", "x11"] }

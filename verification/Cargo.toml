[package]
name = "pong"
version = "0.1.0"
edition = "2021"
publish = false

[dependencies]
rand = "=0.8.8"
bevy = { version = "0.7", default-features = false, features = ["render", "bevy_winit", "png", "x11"] }
bevy_rapier2d = "0.14"
bevy_framepace = "0.4"

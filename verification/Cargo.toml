[package]
name = "engine"
version = "0.1.0"
edition = "2021"
publish = false

[dependencies]
assets_manager = { version = "=0.11.6", default-features = false, features = ["png"] }
image = { version = "=0.24.9", default-features = false, features = ["png"] }
rand = "=0.8.8"
winit = { version = "=0.29.15", default-features = false, features = ["rwh_06", "x11"] }

[package]
name = "ball_physics"
version = "0.1.0"
edition = "2021"
publish = false

[dependencies]
macroquad = "=0.4.16"
egui-macroquad = { version = "=0.17.3", default-features = false }

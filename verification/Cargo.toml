[package]
name = "live_sim"
version = "0.1.0"
edition = "2021"
publish = false

[dependencies]
rapier2d = "0.17"
parry2d = "0.13"
nalgebra = "0.32"
glam = "0.21"
rand = "0.8"
macroquad = "0.3"
egui = "0.21"
egui-macroquad = "0.15"

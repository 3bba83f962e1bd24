[package]
name = "cliprail"
version = "0.1.0"
edition = "2021"
publish = false

[dependencies]
sha2 = "0.10"
chrono = "0.4"
serde = { version = "1", features = ["derive"] }
serde_json = "1"
crossbeam-channel = "0.5"
arboard = "3"
global-hotkey = "0.6"
image = { version = "0.25", default-features = false, features = ["png"] }
eframe = { version = "0.29", default-features = false, features = ["default_fonts", "glow", "x11", "wayland"] }
egui = "0.29"

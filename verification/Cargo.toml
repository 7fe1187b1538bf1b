[package]
name = "calculator"
version = "0.1.0"
edition = "2021"
publish = false

[dependencies]
eframe = { version = "0.22", default-features = false, features = ["glow", "default_fonts"] }
egui = "0.22"
egui_extras = { version = "0.22", features = ["svg"] }
rand = "0.8"
statrs = "0.16"

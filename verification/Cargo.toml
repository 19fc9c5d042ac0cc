[package]
name = "classic_ciphers"
version = "0.1.0"
edition = "2021"
publish = false

[dependencies]
rand = "=0.8.8"
eframe = { version = "=0.23.0", default-features = false, features = ["default_fonts", "glow"] }
egui = { version = "=0.23.0", default-features = false, features = ["default_fonts"] }
egui_dock = "=0.8.2"
im-native-dialog = "=0.3.0"

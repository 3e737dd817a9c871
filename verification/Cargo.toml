[package]
name = "rustamp"
version = "0.1.0"
edition = "2021"
publish = false

[dependencies]
rand = "*"
serde = { version = "*", features = ["derive"] }
serde_json = "*"
dirs = "*"
walkdir = "*"
lofty = "*"
rustfft = "*"
rodio = "*"
eframe = { version = "*", default-features = false, features = ["default_fonts", "glow", "x11"] }
rfd = "*"

[package]
name = "png-metadata-gui"
version = "0.1.0"
edition = "2021"
publish = false

[dependencies]
chrono = { version = "*", default-features = false, features = ["clock", "std"] }
eframe = { version = "*", default-features = false, features = ["default_fonts", "glow", "persistence", "wayland", "x11"] }
egui_extras = { version = "*", default-features = false }
flate2 = "*"
image = { version = "*", default-features = false, features = ["png"] }
resvg = "*"
rfd = "*"
serde = { version = "*", features = ["derive"] }
serde_json = { version = "*", features = ["preserve_order"] }

[package]
name = "rfsoc_sim"
version = "0.1.0"
edition = "2021"
publish = false

[dependencies]
eframe = { version = "=0.36.2", default-features = false, features = ["default_fonts", "glow", "x11"] }
egui = { version = "=0.36.2", default-features = false, features = ["default_fonts"] }
egui-phosphor = "=0.14.0"
egui_plot = "=0.37.0"
egui-snarl = { version = "=0.12.0", features = ["serde"] }
num-complex = "=0.4.6"
rayon = "=1.12.0"
realfft = "=3.5.1"
rfd = "=0.17.2"
rustfft = "=6.4.1"
serde = { version = "=1.0.229", features = ["derive"] }
serde_json = "=1.0.154"
tracing = "*"
tracing-subscriber = "*"

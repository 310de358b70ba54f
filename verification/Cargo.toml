[package]
name = "pealayer"
version = "0.1.0"
edition = "2021"
publish = false

[dependencies]
uuid = { version = "=1.29.0", features = ["v4", "serde"] }
serde = { version = "=1.0.229", features = ["derive"] }
serde_json = "=1.0.154"
eframe = { version = "=0.36.2", default-features = false, features = ["glow", "default_fonts", "x11"] }
egui_dock = "=0.21.1"
env_logger = { version = "=0.11.11", default-features = false }
libmpv2 = "=7.0.0"
rfd = { version = "=0.17.2", default-features = false, features = ["gtk3"] }
serialport = { version = "=4.10.1", default-features = false }
tiny_http = "=0.12.0"
winreg = "=0.55.0"

[package]
name = "replay_manager"
version = "0.1.0"
edition = "2021"
publish = false

[dependencies]
glob = "=0.3.4"
anyhow = "=1.0.104"
dirs = "=7.0.0"
eframe = { version = "=0.36.2", default-features = false, features = ["glow", "x11", "default_fonts", "persistence"] }
egui_extras = { version = "=0.36.2", default-features = false, features = ["file", "image"] }
egui-file-dialog = { version = "=0.15.0", default-features = false }
egui_material_icons = "0.8"
egui-notify = "0.23"
open = "=5.4.5"
rayon = "=1.12.0"
serde = { version = "=1.0.229", features = ["derive"] }
tokio = { version = "=1.54.1", features = ["rt-multi-thread"] }
which = "=8.0.6"

[package]
name = "dsp_test"
version = "0.1.0"
edition = "2021"
publish = false

[dependencies]
rtrb = "=0.4.0"
rustfft = "=6.4.1"
strum = "=0.28.0"
strum_macros = "=0.28.0"
egui = { version = "=0.31.1", default-features = false, features = ["default_fonts"] }
egui_plot = { version = "=0.32.1", default-features = false }
eframe = { version = "=0.31.1", default-features = false, features = ["glow", "x11", "default_fonts"] }

[package]
name = "vcvrack_rs"
version = "0.1.0"
edition = "2021"
publish = false

[dependencies]
directories = "6"
eframe = { version = "0.29", default-features = false, features = ["default_fonts", "glow", "x11"] }
resvg = { version = "0.44", default-features = false }
serde = { version = "1", features = ["derive"] }
serde_json = "1"
tiny-skia = "0.11"
usvg = { version = "0.44", default-features = false }

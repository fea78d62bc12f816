[package]
name = "vesuvius_gui"
version = "0.1.0"
edition = "2021"
publish = false

[dependencies]
base64 = "=0.22.1"
lz4-compression = "=0.7.0"
ruzstd = "=0.9.1"
sha2 = "=0.10.9"
regex = "=1.13.1"
dashmap = "=6.2.1"
tiff = "=0.9.1"
memmap = "0.7"
clap = { version = "4", features = ["derive"] }
eframe = { version = "0.31", default-features = false, features = ["glow", "default_fonts", "persistence", "x11"] }
egui_extras = { version = "0.31", default-features = false }
ehttp = "0.5"
image = { version = "0.25", default-features = false, features = ["png", "jpeg"] }
directories = "6"
serde = { version = "1", features = ["derive"] }
serde_json = "1"
nalgebra = { version = "0.33", default-features = false, features = ["std"] }
libm = "0.2"
wavefront_obj = "=11.0.0"
rayon = "1"
anyhow = "1"

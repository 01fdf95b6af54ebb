[package]
name = "tagger_neo"
version = "0.1.0"
edition = "2021"
publish = false

[dependencies]
anyhow = "1"
csv = "1"
eframe = { version = "0.22", default-features = false, features = ["default_fonts", "glow", "persistence", "wayland"] }
image = { version = "0.24", default-features = false, features = ["jpeg", "png", "webp", "bmp", "tiff"] }
ort = { version = "2.0.0-rc.10", default-features = false, features = ["std", "load-dynamic", "directml"] }
regex = "1"
reqwest = { version = "0.11", default-features = false, features = ["blocking", "rustls-tls"] }
rfd = { version = "0.14", default-features = false, features = ["xdg-portal", "tokio"] }
serde = { version = "1", features = ["derive"] }
serde_json = "1"
walkdir = "2"

[package]
name = "pelican"
version = "0.1.0"
edition = "2021"
publish = false

[dependencies]
id3 = "1"
mp4ameta = "*"
anyhow = "1"
clap = { version = "4", features = ["derive"] }
crossbeam-channel = "0.5"
serde = { version = "1", features = ["derive"] }
serde_json = "1"
tracing = "0.1"
tracing-subscriber = { version = "0.3", features = ["env-filter"] }
nusb = "0.2"
mtp-rs = "*"
tokio = { version = "1", features = ["rt", "macros"] }
futures = "0.3"
bytes = "1"
eframe = { version = "*", default-features = false, features = ["default_fonts", "glow", "x11"] }

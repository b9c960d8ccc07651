[package]
name = "zzzcap"
version = "0.1.0"
edition = "2021"
publish = false

[dependencies]
num-bigint = "=0.4.8"
serde = { version = "=1.0.229", features = ["derive"] }
serde_json = "=1.0.154"
clap = { version = "=4.6.7", features = ["derive"] }
ureq = "=3.5.1"
eframe = { version = "0.36", default-features = false, features = ["glow", "default_fonts", "x11"] }

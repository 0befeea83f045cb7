[package]
name = "parkhay"
version = "0.1.0"
edition = "2021"
publish = false

[dependencies]
anyhow = "1"
clap = { version = "4", features = ["derive"] }
eframe = { version = "0.31", default-features = false, features = ["default_fonts", "glow", "x11"] }
egui = "0.31"
env_logger = "0.11"
log = "0.4"
parquet = { version = "55", default-features = false }
thrift = "0.17"

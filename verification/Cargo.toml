[package]
name = "memory_palace"
version = "0.1.0"
edition = "2021"
publish = false

[dependencies]
chrono = "=0.4.45"
clap = { version = "=4.6.7", features = ["cargo"] }
clap_complete = "=4.6.11"
eframe = { version = "0.31", default-features = false, features = ["default_fonts", "glow", "x11"] }
flexi_logger = "=0.31.10"
log = "=0.4.34"
rand = "=0.9.5"
serde = { version = "=1.0.229", features = ["derive"] }
toml = "=0.8.23"

[package]
name = "rofi_taskwarrior"
version = "0.1.0"
edition = "2021"
publish = false

[dependencies]
base64 = "0.13"
chrono = { version = "0.4", default-features = false, features = ["clock"] }
log = "0.4"
rmp-serde = "1"
serde = { version = "1", features = ["derive"] }
serde_json = "1"
simplelog = "0.12"
tabular = "0.2"
tap = "1"

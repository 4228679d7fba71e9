[package]
name = "avb_descriptor"
version = "0.1.0"
edition = "2021"
publish = false

[dependencies]
android_logger = { version = "0.15", default-features = false }
anyhow = "1"
clap = { version = "4", features = ["derive"] }
log = "0.4"

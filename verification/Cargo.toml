[package]
name = "pdf_compressor"
version = "0.1.0"
edition = "2021"
publish = false

[dependencies]
flate2 = "1"
image = "0.25"
lopdf = "0.34"
clap = { version = "4", features = ["derive"] }
anyhow = "1"
env_logger = "0.11"

[package]
name = "otomieru_boyer"
version = "0.1.0"
edition = "2021"
publish = false

[dependencies]
serde = { version = "1", features = ["derive"] }
serde_json = "1"
rustfft = "6"
symphonia = "0.5"
cpal = "0.16"

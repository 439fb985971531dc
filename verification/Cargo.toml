[package]
name = "modular_synth"
version = "0.1.0"
edition = "2021"
publish = false

[dependencies]
anyhow = "1"
cpal = "0.13"
ctrlc = "3"
midir = "0.7"
midly = "0.5"
portable-atomic = { version = "1", features = ["float"] }
serde = { version = "1", features = ["derive"] }
serde_json = "1"
thiserror = "1"

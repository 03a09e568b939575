[package]
name = "summit_hip_numbers"
version = "0.1.0"
edition = "2021"
publish = false

[dependencies]
anyhow = "1"
cpal = "*"
ffmpeg-next = "*"
log = "0.4"

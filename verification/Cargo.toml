[package]
name = "gecko_audio_ctrl"
version = "0.1.0"
edition = "2021"
publish = false

[dependencies]
crossbeam-channel = "*"
notify = "4"

[package]
name = "waveform_display"
version = "0.1.0"
edition = "2021"
publish = false

[dependencies]
cpal = "0.15"
minifb = "0.27"

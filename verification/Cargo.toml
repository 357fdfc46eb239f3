[package]
name = "riff"
version = "0.1.0"
edition = "2021"
publish = false

[dependencies]
textplots = "0.8"

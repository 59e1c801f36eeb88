[package]
name = "itk"
version = "0.1.0"
edition = "2021"
publish = false

[dependencies]
thiserror = "2"
tracing = "0.1"
ffmpeg-next = "7.0"

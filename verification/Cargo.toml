[package]
name = "oxideav-heif"
version = "0.1.0"
edition = "2021"
publish = false

[dependencies]
oxideav-av1 = "*"
oxideav-core = "*"
oxideav-h264 = "*"
oxideav-h265 = "*"

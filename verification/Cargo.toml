[package]
name = "adaptivegrain"
version = "0.1.0"
edition = "2021"
publish = false

[dependencies]
failure = "0.1"
vapoursynth = "0.3"

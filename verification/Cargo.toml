[package]
name = "pianorium"
version = "0.1.0"
edition = "2021"
publish = false

[dependencies]
midly = "0.5"
num_cpus = "1"
rand = "0.8"
egui_sdl2_gl = "0.16"
ffmpeg-next = "*"

[package]
name = "video2gd"
version = "0.1.0"
edition = "2021"
publish = false

[dependencies]
image = "0.24"
json = "0.12"
ffprobe = "0.3"
rayon = "1"
clap = { version = "3", features = ["cargo"] }

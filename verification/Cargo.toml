[package]
name = "audio_server"
version = "0.1.0"
edition = "2021"
publish = false

[dependencies]
slug = "*"
serde = { version = "1", features = ["derive"] }
serde_json = "1"
hound = "*"
rosc = "*"
walkdir = "2"
fxhash = "*"
num_cpus = "1"
threadpool = "*"
pitch_calc = "*"

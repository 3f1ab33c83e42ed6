[package]
name = "audio_unpack"
version = "0.1.0"
edition = "2021"
publish = false

[dependencies]
aes = "0.8"
ecb = "0.1"
base64 = "0.22"
anyhow = "1"
clap = { version = "4", features = ["derive"] }
id3 = "1"
metaflac = "0.2"
rayon = "1"
serde_json = "1"
walkdir = "2"

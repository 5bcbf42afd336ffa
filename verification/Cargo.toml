[package]
name = "asset_pipeline"
version = "0.1.0"
edition = "2021"
publish = false

[dependencies]
crc = "1"
uuid = { version = "*", features = ["v4"] }
serde = { version = "*", features = ["derive"] }
toml = "*"
walkdir = "*"
clap = "*"
claxon = "*"
hound = "*"
minimp3 = "*"
vorbis = "*"

[package]
name = "drg"
version = "0.1.0"
edition = "2021"
publish = false

[dependencies]
anyhow = "1"
byteorder = "1"
clap = "2"
indicatif = { version = "0.16", features = ["rayon"] }
rayon = "1"
serde_json = "1"
walkdir = "2"

[package]
name = "great_extractor"
version = "0.1.0"
edition = "2021"
publish = false

[dependencies]
aho-corasick = "1"
anyhow = "1"
clap = { version = "4", features = ["derive"] }
comfy-table = "7"
crossterm = "0.29"
csv = "1"
dirs = "6"
flate2 = "1"
goblin = "0.10"
image = { version = "0.25", default-features = false, features = ["png", "jpeg", "gif", "bmp", "ico", "tiff", "webp"] }
indicatif = "0.18"
memchr = "2"
memmap2 = "0.9"
ratatui = "0.30"
ratatui-image = { version = "*", default-features = false }
rayon = "1"
serde = { version = "1", features = ["derive"] }
serde_json = "1"
serde_yaml = "0.9"

[package]
name = "pixl"
version = "0.1.0"
edition = "2021"
publish = false

[dependencies]
tokenizers = { version = "0.22", default-features = false, features = ["fancy-regex"] }
anyhow = "1"
clap = { version = "4", features = ["derive"] }
thiserror = "2"
image = { version = "0.25", default-features = false, features = ["png", "jpeg"] }
rayon = "1"
serde_json = "1"
crossbeam-channel = "0.5"
ctrlc = "3"
indicatif = "0.18"
libc = "0.2"
ratatui = "0.29"
ratatui-image = { version = "8", default-features = false, features = ["crossterm"] }
crossterm = "0.28"
candle-core = "=0.10.2"
candle-nn = "=0.10.2"
candle-transformers = "=0.10.2"
hf-hub = { version = "0.4", default-features = false, features = ["ureq"] }

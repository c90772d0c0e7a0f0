[package]
name = "mj_tui"
version = "0.1.0"
edition = "2021"
publish = false

[dependencies]
ropey = "1.6"
unicode-segmentation = "1.12"
unicode-width = "0.2"
toml = "0.8"
serde = { version = "1", features = ["derive"] }
ratatui = "0.29"
chrono = "0.4"
anyhow = "1"
bitflags = "2"
tracing = "0.1"

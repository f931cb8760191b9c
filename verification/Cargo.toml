[package]
name = "del"
version = "0.1.0"
edition = "2021"
publish = false

[dependencies]
anyhow = "1"
blake3 = "1"
clap = { version = "4", features = ["derive"] }
crossterm = "*"
dirs-next = "2"
figment = { version = "0.10", features = ["toml", "env"] }
ratatui = "*"
rayon = "1"
rusqlite = { version = "*", features = ["bundled"] }
serde = { version = "1", features = ["derive"] }
tar = "0.4"
zstd = "*"

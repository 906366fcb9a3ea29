[package]
name = "palimpsest"
version = "0.1.0"
edition = "2021"
publish = false

[dependencies]
anyhow = "1"
chrono = "0.4"
clap = { version = "4", features = ["derive"] }
crossterm = "0.28"
directories = "5"
flate2 = "1"
globset = "0.4"
hex = "0.4"
ratatui = "0.29"
regex = "1"
rusqlite = { version = "0.32", features = ["bundled"] }
serde = { version = "1", features = ["derive"] }
serde_json = "1"
sha2 = "0.10"
similar = "2"
tar = "0.4"
toml = "0.8"
ureq = "2"
zip = { version = "2", default-features = false, features = ["deflate"] }

[package]
name = "logutil"
version = "0.1.0"
edition = "2021"
publish = false

[dependencies]
dashmap = "6"
regex-lite = "0.1"
chrono = "0.4"
ratatui = "0.29"
crossterm = "0.28"
arboard = "3"
anyhow = "1"
structopt = "0.3"
tokio = { version = "1", features = ["full"] }
env_logger = "0.11"
log = "0.4"
rayon = "1"
once_cell = "1"

[dev-dependencies]
tempfile = "3"

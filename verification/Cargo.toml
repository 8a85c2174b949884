[package]
name = "episode_matcher"
version = "0.1.0"
edition = "2021"
publish = false

[dependencies]
anyhow = "*"
clap = { version = "*", features = ["derive"] }
image = "*"
pgs-rs = "=0.1.1"
reqwest = { version = "=0.13.5", default-features = false, features = ["blocking", "query"] }
rustyline = "=18.0.1"
serde = { version = "*", features = ["derive"] }
serde_json = "*"
tempfile = "*"
tesseract-rs = "=0.4.0"
toml = "*"
xdir = "=0.1.0"

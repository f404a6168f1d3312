[package]
name = "pudu"
version = "0.1.0"
edition = "2021"
publish = false

[dependencies]
anyhow = "=1.0.104"
base64 = "=0.22.1"
clap = { version = "=4.6.7", features = ["derive"] }
dirs = "=6.0.0"
flate2 = "=1.1.10"
miette = { version = "=7.6.0", features = ["fancy-no-backtrace"] }
pathdiff = "=0.2.3"
serde = { version = "=1.0.229", features = ["derive"] }
serde_json = { version = "=1.0.154", features = ["raw_value"] }
serde_norway = "=0.9.42"
sha2 = "=0.10.9"
tar = "=0.4.46"
tempfile = "=3.27.0"
thiserror = "=2.0.21"
toml = "=0.8.23"
ureq = "=3.5.1"
url = "=2.5.8"

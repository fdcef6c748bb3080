[package]
name = "mdserve"
version = "0.1.0"
edition = "2021"
publish = false

[dependencies]
pulldown-cmark = "=0.13.4"
syntect = { version = "=5.3.0", default-features = false, features = ["default-fancy"] }
url = "=2.5.8"
tiny_http = "=0.12.0"
clap = { version = "=4.6.7", features = ["derive"] }
env_logger = "=0.11.11"
log = "=0.4.34"
signal-hook = "=0.4.5"
eyre = "=0.6.14"
rinja = "=0.3.5"

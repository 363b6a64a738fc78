[package]
name = "russ"
version = "0.1.0"
edition = "2021"
publish = false

[dependencies]
rss = "*"
tokio = { version = "*", features = ["full"] }
reqwest = { version = "*", default-features = false }
fcntl = "*"
signal-hook = "*"
log = "*"
env_logger = "*"

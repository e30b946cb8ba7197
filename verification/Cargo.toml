[package]
name = "cipo"
version = "0.1.6"
edition = "2021"
publish = false

[dependencies]
attohttpc = { version = "*", default-features = false, features = ["json"] }
clap = "3"
env_logger = "*"
humantime = "2"
log = "0.4"
serde = { version = "1", features = ["derive"] }
serde_json = "1"
toml = "0.5"

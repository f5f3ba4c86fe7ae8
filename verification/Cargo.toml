[package]
name = "telegram_decoder"
version = "0.1.0"
edition = "2021"
publish = false

[dependencies]
g2poly = "*"
num-traits = "0.2"
clap = { version = "4", features = ["derive"] }
reqwest = { version = "0.11", features = ["blocking", "json"] }
chrono = "0.4"
env_logger = "*"
log = "0.4"
serde = { version = "1", features = ["derive"] }
serde_json = "1"

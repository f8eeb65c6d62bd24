[package]
name = "marduk"
version = "0.1.0"
edition = "2021"
publish = false

[dependencies]
num-traits = "0.2"
bap = "*"
clap = "2"
env_logger = "*"
log = "0.4"
mktemp = "*"
mycroft-macros = "*"
mycroft-support = "*"
serde = { version = "1", features = ["derive"] }
serde_json = "1"

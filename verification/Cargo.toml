[package]
name = "kasm"
version = "0.1.0"
edition = "2021"
publish = false

[dependencies]
regex = "1"
csv = "1"
zip = { version = "0.6", default-features = false, features = ["deflate"] }
toml = "0.8"
serde = { version = "1", features = ["derive"] }
serde_json = "1"
clap = { version = "4", features = ["derive"] }
strum = { version = "0.25", features = ["derive"] }
log = "0.4"
pretty_env_logger = "0.5"
reqwest = { version = "0.11", features = ["blocking"] }
inquire = "0.6"
keyring = "2"
whoami = "1"

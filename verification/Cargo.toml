[package]
name = "boat-cli"
version = "0.9.0"
edition = "2021"
publish = false

[dependencies]
anyhow = "=1.0.104"
boat-lib = "=1.0.1"
chrono = "=0.4.45"
clap = { version = "=4.6.7", features = ["derive"] }
clap-verbosity-flag = "=3.0.4"
dialoguer = "=0.12.0"
directories = "=6.0.0"
env_logger = "=0.11.11"
log = "=0.4.35"
rusqlite = "=0.39.0"
serde = { version = "=1.0.229", features = ["derive"] }
serde_json = "=1.0.154"
tabular = { version = "=0.2.0", features = ["ansi-cell"] }
toml = "=1.2.1"
yansi = "=1.0.1"

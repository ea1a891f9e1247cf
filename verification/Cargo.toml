[package]
name = "vitals_core"
version = "0.1.0"
edition = "2021"
publish = false

[dependencies]
dirs = "*"
serde = { version = "*", features = ["derive"] }
serde_json = "*"
toml = "*"
anyhow = "*"
log = "*"
env_logger = "*"
nix = { version = "*", features = ["fs"] }
reqwest = { version = "*", features = ["blocking"] }
zbus = "*"
tokio = { version = "*", features = ["rt", "time"] }

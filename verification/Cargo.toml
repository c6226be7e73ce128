[package]
name = "pterm"
version = "0.1.0"
edition = "2021"
publish = false

[dependencies]
env_logger = "0.11"
log = "0.4"
mio = { version = "1", features = ["os-poll", "os-ext", "net"] }
nix = { version = "0.29", features = ["fs", "process", "signal", "term", "user"] }
serde_json = "1"

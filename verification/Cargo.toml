[package]
name = "clap_serde"
version = "0.1.0"
edition = "2021"
publish = false

[dependencies]
clap = { version = "=4.6.7", features = ["string"] }
clap_complete = "=4.6.11"
serde_json = "=1.0.151"
serde_yaml = "=0.9.34"
toml = "=1.1.7"

[package]
name = "inventorize"
version = "0.1.0"
edition = "2021"
publish = false

[dependencies]
digest = "0.10"
md-5 = "0.10"
sha1 = "0.10"
serde = { version = "1", features = ["derive"] }
serde_json = "1"
log = "0.4"
env_logger = "0.10"
clap = { version = "4", features = ["derive"] }

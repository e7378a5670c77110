[package]
name = "ntro"
version = "0.1.0"
edition = "2021"
publish = false

[dependencies]
anyhow = "*"
clap = { version = "*", features = ["derive"] }
clap_complete = "*"
log = "*"
notify = "*"
serde = "*"
serde_json = "*"
serde_yaml = "*"
simple_logger = "*"
which = "*"

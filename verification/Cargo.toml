[package]
name = "nca_analysis"
version = "0.1.0"
edition = "2021"
publish = false

[dependencies]
rayon = "1"
clap = "4"
csv = "1"
serde = { version = "1", features = ["derive"] }
serde_json = "1"
thiserror = "1"
rand = "0.8"
log = "0.4"
env_logger = "0.10"

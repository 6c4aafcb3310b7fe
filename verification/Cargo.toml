[package]
name = "java_guard"
version = "0.1.0"
edition = "2021"
publish = false

[dependencies]
regex = "1"
encoding_rs = "0.8"
serde = { version = "1", features = ["derive"] }
serde_json = "1"
serde_yaml = "0.9"
toml = "0.8"
clap = { version = "4", features = ["derive", "env"] }
walkdir = "2"
anyhow = "1"
thiserror = "1"
rhai = "1.19"

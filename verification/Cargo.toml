[package]
name = "arctic"
version = "0.1.0"
edition = "2021"
publish = false

[dependencies]
serde_json = "1"
clap = { version = "4", features = ["derive", "env"] }
log = "0.4"

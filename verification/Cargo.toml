[package]
name = "hyprsession"
version = "0.1.0"
edition = "2021"
publish = false

[dependencies]
clap = { version = "*", features = ["derive"] }
hyprland = "*"
log = "*"
serde = { version = "*", features = ["derive"] }
serde-inline-default = "*"
serde_json = "*"
serde_yaml = "*"

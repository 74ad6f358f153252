[package]
name = "walkman"
version = "0.1.1"
edition = "2021"
publish = false

[dependencies]
anyhow = "1"
clap = { version = "4", features = ["derive"] }
crossterm = "*"
regex = "1"
rexpect = "*"
serde = { version = "1", features = ["derive"] }
serde_yaml = "*"

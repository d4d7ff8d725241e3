[package]
name = "synmon"
version = "0.1.0"
edition = "2021"
publish = false

[dependencies]
actix = "*"
actix-web = "*"
actix-web-actors = "*"
chrono = "*"
clap = "*"
dashmap = "*"
governor = "*"
serde = { version = "*", features = ["derive"] }
serde_yaml = "*"

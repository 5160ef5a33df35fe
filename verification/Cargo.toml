[package]
name = "history"
version = "0.1.0"
edition = "2021"
publish = false

[dependencies]
base64 = "*"
chrono = "*"
clap = { version = "*", features = ["derive"] }
dirs = "*"
glob = "*"
rayon = "*"
regex = "*"
serde = { version = "*", features = ["derive"] }
serde_json = "*"

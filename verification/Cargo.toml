[package]
name = "dotl"
version = "0.1.0"
edition = "2021"
publish = false

[dependencies]
xdg = "*"
chrono = "*"
clap = { version = "*", features = ["derive"] }
csv = "*"

[dev-dependencies]
serde_json = "*"

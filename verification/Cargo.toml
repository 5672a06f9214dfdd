[package]
name = "ptt"
version = "0.1.0"
edition = "2021"
publish = false

[dependencies]
anyhow = "=1.0.104"
chrono = "=0.4.45"
clap = { version = "=3.2.25", features = ["derive"] }
indexmap = "=2.14.2"
shellexpand = "=3.1.2"

[dev-dependencies]
regex = "1"

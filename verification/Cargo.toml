[package]
name = "miniredis"
version = "0.1.0"
edition = "2021"
publish = false

[dependencies]
anyhow = "*"
bytes = "*"
chrono = "*"
clap = { version = "*", features = ["derive"] }
tokio = { version = "*", features = ["full"] }

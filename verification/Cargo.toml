[package]
name = "garfutils"
version = "0.1.0"
edition = "2021"
publish = false

[dependencies]
rand = "0.8"
anyhow = "1"
chrono = "0.4"
clap = { version = "4", features = ["derive"] }
dirs-next = "2"
image = "0.25"

[package]
name = "maxtime"
version = "0.1.0"
edition = "2021"
publish = false

[dependencies]
anyhow = "1"
clap = { version = "4", features = ["derive"] }
filetime = "0.2"
ignore = "0.4"

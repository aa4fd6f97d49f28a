[package]
name = "bash2amber"
version = "0.1.0"
edition = "2021"
publish = false

[dependencies]
heraclitus-compiler = "*"
clap = { version = "4", features = ["derive"] }

[package]
name = "gitmodule_surfer"
version = "0.1.0"
edition = "2021"
publish = false

[dependencies]
anyhow = "*"
clap = { version = "*", features = ["derive"] }
dialoguer = { version = "*", features = ["fuzzy-select"] }

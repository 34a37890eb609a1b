[package]
name = "agentsmd"
version = "0.1.0"
edition = "2021"
publish = false

[dependencies]
clap = { version = "4", features = ["derive"] }
globset = "0.4"
ignore = "0.4"
languages = "*"
owo-colors = "4"
shellexpand = "3"
similar = "2"
thiserror = "*"

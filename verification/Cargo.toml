[package]
name = "snips"
version = "0.1.0"
edition = "2021"
publish = false

[dependencies]
languages = "*"
textwrap = "*"
clap = { version = "*", features = ["derive"] }
owo-colors = "*"
similar = "*"
thiserror = "*"

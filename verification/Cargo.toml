[package]
name = "tagver"
version = "0.1.0"
edition = "2021"
publish = false

[dependencies]
gix = "*"
clap = { version = "*", features = ["derive"] }

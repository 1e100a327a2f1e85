[package]
name = "hird_check"
version = "0.1.0"
edition = "2021"
publish = false

[dependencies]
cstree = "0.12"
clap = { version = "4", features = ["derive"] }

[package]
name = "hexit"
version = "0.1.0"
edition = "2021"
publish = false

[dependencies]
memmap2 = "*"
h3o = "*"
clap = { version = "*", features = ["derive"] }
image = "*"

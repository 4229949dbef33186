[package]
name = "fxchain"
version = "0.1.0"
edition = "2021"
publish = false

[dependencies]
ringbuffer = "*"
hound = "*"
clap = { version = "*", features = ["derive"] }

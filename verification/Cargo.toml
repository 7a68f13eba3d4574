[package]
name = "musicbytes"
version = "0.1.0"
edition = "2021"

[dependencies]
hound = "=3.5.1"

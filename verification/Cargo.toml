[package]
name = "wserver"
version = "0.1.0"
edition = "2021"
publish = false

[dependencies]
percent-encoding = "2"
clap = { version = "4", features = ["cargo"] }
polling = "2"

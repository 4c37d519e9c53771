[package]
name = "unzipr"
version = "0.4.0"
edition = "2021"
publish = false

[dependencies]
clap = "=2.34.0"
zip = { version = "=0.6.6", default-features = false, features = ["deflate"] }

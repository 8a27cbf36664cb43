[package]
name = "cloudcheck"
version = "0.1.0"
edition = "2021"
publish = false

[dependencies]
ipnet = "*"
serde_json = "*"
clap = "*"

[package]
name = "dns_server"
version = "0.1.0"
edition = "2021"
publish = false

[dependencies]
lru = "0.7"
clap = "2"

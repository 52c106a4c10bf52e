[package]
name = "aerogramme_core"
version = "0.1.0"
edition = "2021"
publish = false

[dependencies]
hex = "0.4"
rand = "0.8"
chrono = "0.4"
im = "15"
http = "1"
quick-xml = "0.31"

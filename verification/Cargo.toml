[package]
name = "sounding-wyoming-text-list"
version = "0.1.0"
edition = "2021"
publish = false

[dependencies]
chrono = "0.4"
metfor = "*"
optional = "*"
sounding-analysis = "*"

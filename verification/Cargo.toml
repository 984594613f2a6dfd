[package]
name = "scodex"
version = "0.1.0"
edition = "2021"
publish = false

[dependencies]
chrono = "0.4"
unicode-width = "0.2"

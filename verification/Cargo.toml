[package]
name = "mielikki"
version = "0.1.0"
edition = "2021"
publish = false

[dependencies]
walkdir = "2"

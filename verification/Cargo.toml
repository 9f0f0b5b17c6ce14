[package]
name = "graphkit"
version = "0.1.0"
edition = "2021"
publish = false

[dependencies]
chrono = "0.4"
egg = "0.6"
libc = "0.2"
lru = "0.12"

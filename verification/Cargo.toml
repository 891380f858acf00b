[package]
name = "concurrency"
version = "0.1.0"
edition = "2021"
publish = false

[dependencies]
oneshot = "0.1"

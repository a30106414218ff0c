[package]
name = "pageprotect"
version = "0.1.0"
edition = "2021"
publish = false

[dependencies]
enum-map = "2"

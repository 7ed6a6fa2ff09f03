[package]
name = "snake_core"
version = "0.1.0"
edition = "2021"
publish = false

[dependencies]
rand = "0.8"
crossterm = "0.25"
itertools = "0.12"

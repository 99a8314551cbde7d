[package]
name = "rustex"
version = "0.1.0"
edition = "2021"
publish = false

[dependencies]
icy_sixel = "=0.1.3"
fontdue = "=0.9.4"

[package]
name = "gol_multi"
version = "0.1.0"
edition = "2021"
publish = false

[dependencies]
base64 = "*"
sha1 = "*"
crossterm = "*"

[package]
name = "wuwa_dango_2026"
version = "0.1.0"
edition = "2021"
publish = false

[dependencies]
rand = "*"
rayon = "*"
unicode-width = "*"

[package]
name = "mdcat"
version = "0.1.0"
edition = "2021"
publish = false

[dependencies]
clap = { version = "4", features = ["derive"] }
comfy-table = "7"
crossterm = "*"
pulldown-cmark = "*"

[package]
name = "glosser"
version = "0.1.0"
edition = "2021"
publish = false

[dependencies]
regex = "=1.13.1"
serde_json = "=1.0.154"
clap = { version = "=3.2.25", features = ["derive"] }
fltk = "1"
fltk-table = "*"
rfd = "*"

[package]
name = "rs_zip"
version = "0.1.0"
edition = "2021"
publish = false

[dependencies]
xz2 = "0.1"
clap = { version = "4", features = ["derive"] }
walkdir = "2"

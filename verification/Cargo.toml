[package]
name = "loader"
version = "0.1.0"
edition = "2021"
publish = false

[dependencies]
libloading = "0.8"
anyhow = "1"
log = "0.4"

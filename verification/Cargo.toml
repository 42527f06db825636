[package]
name = "pngme_lib"
version = "0.1.0"
edition = "2021"
publish = false

[dependencies]
anyhow = "1"
clap = { version = "3.2", features = ["derive"] }
crc = "3"
fehler = "1"
thiserror = "1"

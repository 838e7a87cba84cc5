[package]
name = "media_ingest"
version = "0.1.0"
edition = "2021"
publish = false

[dependencies]
sled = "0.34"
clap = { version = "4", features = ["derive"] }

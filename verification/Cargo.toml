[package]
name = "sweep_ingest"
version = "0.1.0"
edition = "2021"
publish = false

[dependencies]
regex = "=1.13.1"
csv = "=1.4.0"
clap = { version = "=4.6.7", features = ["derive"] }
charming = { version = "=0.6.0", features = ["ssr"] }

[package]
name = "parquet_consolidator"
version = "0.1.0"
edition = "2021"
publish = false

[dependencies]
anyhow = "=1.0.104"
arrow = "=60.0.0"
clap = { version = "=4.6.7", features = ["derive"] }
parquet = { version = "=60.0.0", features = ["arrow", "snap"] }
walkdir = "=2.5.0"

[dev-dependencies]
bytes = "=1.12.1"

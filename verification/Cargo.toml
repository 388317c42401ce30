[package]
name = "metis"
version = "0.1.0"
edition = "2021"
publish = false

[dependencies]
anyhow = "=1.0.104"
clap = { version = "=4.6.7", features = ["derive"] }
duckdb = { version = "=1.20000.1", default-features = false }
serde = { version = "=1.0.229", features = ["derive"] }
thiserror = "=2.0.21"

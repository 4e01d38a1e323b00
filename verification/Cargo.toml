[package]
name = "ohlcv_pipeline"
version = "0.1.0"
edition = "2021"
publish = false

[dependencies]
anyhow = "*"
env_logger = "*"
log = "*"
polars = { version = "*", default-features = false, features = ["parquet"] }
reqwest = { version = "*", default-features = false, features = ["blocking", "json"] }
serde = { version = "*", features = ["derive"] }

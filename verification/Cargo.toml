[package]
name = "iceberg_row_updates"
version = "0.1.0"
edition = "2021"
publish = false

[dependencies]
datafusion = { version = "52", default-features = false }
iceberg = "0.9"
futures = "0.3"
parquet = "57"
uuid = { version = "1", features = ["v7"] }

[dev-dependencies]
tokio = { version = "1", features = ["rt"] }

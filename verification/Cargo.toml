[package]
name = "fook_kdb"
version = "0.1.0"
edition = "2021"
publish = false

[dependencies]
anyhow = "1"
async-stream = "0.3"
bytes = "=1.12.1"
chrono = "0.4"
futures = "0.3"
polars = { version = "=0.53.0", default-features = false, features = ["lazy", "parquet", "sql", "csv", "dtype-datetime", "dtype-u8"] }
serde = { version = "1", features = ["derive"] }
serde_yaml = "0.9"
tokio = { version = "1", features = ["full"] }
tokio-native-tls = "0.3"
tokio-util = { version = "0.7", features = ["codec"] }

[dev-dependencies]
tempfile = "3"

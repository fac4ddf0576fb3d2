[package]
name = "chdb_rust"
version = "0.1.0"
edition = "2021"
publish = false

[dependencies]
clickhouse = "*"
serde = { version = "1", features = ["derive"] }
thiserror = "1"

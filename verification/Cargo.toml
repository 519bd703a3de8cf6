[package]
name = "lake_retrieval"
version = "0.1.0"
edition = "2021"
publish = false

[dependencies]
itertools = "0.10.5"
serde = { version = "1", features = ["derive"] }
serde_json = "1"
parquet = { version = "30.0.1", default-features = false, features = ["json", "snap"] }
redis = "0.23"
fred = "5.2.0"
futures = "0.3"
actix = "0.13"

[package]
name = "pg_messages"
version = "0.1.0"
edition = "2021"
publish = false

[dependencies]
bytes = "1"
md-5 = "0.10"
tokio = { version = "1", default-features = false, features = ["net", "io-util"] }

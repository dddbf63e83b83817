[package]
name = "query"
version = "0.1.0"
edition = "2021"
publish = false

[dependencies]
anyhow = "1"
prost = { version = "0.13", default-features = false, features = ["std"] }
reqwest = { version = "0.12", default-features = false }
tracing = "0.1"

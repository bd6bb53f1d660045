[package]
name = "rhtar"
version = "0.1.0"
edition = "2021"
publish = false

[dependencies]
anyhow = "1"
indexmap = "2"
num-traits = "0.2"
tokio = { version = "1", default-features = false, features = ["sync"] }

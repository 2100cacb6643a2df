[package]
name = "eww"
version = "0.1.0"
edition = "2021"
publish = false

[dependencies]
codespan-reporting = "0.11"
chrono = "0.4"
tokio = { version = "1", default-features = false, features = ["sync"] }
anyhow = "1"
serde_json = "1"

[package]
name = "qedgen"
version = "0.1.0"
edition = "2021"
publish = false

[dependencies]
anyhow = "1"
quote = "1"
regex = "1"
serde = { version = "1", features = ["derive"] }
serde_json = "1"
syn = { version = "2", features = ["full"] }
tempfile = "3"

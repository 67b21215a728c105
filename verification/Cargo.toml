[package]
name = "candela"
version = "0.1.0"
edition = "2021"
publish = false

[dependencies]
clap = "3"
fantoccini = "0.19"
futures = "0.3"
reqwest = "0.11"
serde = { version = "1", features = ["derive"] }
serde_json = "1"
tokio = { version = "1", features = ["full"] }

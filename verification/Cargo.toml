[package]
name = "autocrop"
version = "0.1.0"
edition = "2021"
publish = false

[dependencies]
anyhow = "1"
base64 = "0.21"
clap = { version = "3.2", features = ["derive"] }
image = { version = "0.24", default-features = false, features = ["png", "jpeg"] }
opencv = "0.88"
reqwest = { version = "0.11", features = ["json"] }
serde = { version = "1", features = ["derive"] }
tokio = { version = "1", features = ["full"] }

[package]
name = "dirmirror"
version = "0.1.0"
edition = "2021"
publish = false

[dependencies]
anyhow = "1"
html-escape = "0.2"
regex = "1"
reqwest = { version = "0.12", default-features = false }
serde = { version = "1", features = ["derive"] }
serde_json = "1"
tokio = { version = "1", features = ["rt-multi-thread", "macros"] }
url = "2"

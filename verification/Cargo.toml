[package]
name = "sse_chat"
version = "0.1.0"
edition = "2021"
publish = false

[dependencies]
reqwest = { version = "*", default-features = false, features = ["json", "stream"] }
tokio = { version = "*", features = ["rt", "sync"] }
futures = "*"
serde = { version = "*", features = ["derive"] }

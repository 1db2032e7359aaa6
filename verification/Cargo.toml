[package]
name = "pohb"
version = "0.1.0"
edition = "2021"
publish = false

[dependencies]
anyhow = "*"
axum = "*"
bytes = { version = "*", features = ["serde"] }
rand = "*"
reqwest = { version = "*", default-features = false, features = ["json"] }
reqwest-eventsource = "*"
serde = { version = "*", features = ["derive"] }
serde_json = "*"
tokio = { version = "*", features = ["macros", "rt", "net", "fs", "io-util", "process", "sync"] }
tokio-stream = { version = "*", features = ["sync"] }
tracing = "*"

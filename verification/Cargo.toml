[package]
name = "grpc_files"
version = "0.1.0"
edition = "2021"
publish = false

[dependencies]
uuid = { version = "*", features = ["v4"] }
tokio = { version = "*", features = ["rt-multi-thread", "macros", "fs", "io-util", "sync"] }
tokio-stream = { version = "*", features = ["sync"] }
ratatui = "*"
serde = { version = "*", features = ["derive"] }
serde_json = "*"

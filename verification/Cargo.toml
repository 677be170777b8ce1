[package]
name = "revtunnel"
version = "0.1.0"
edition = "2021"
publish = false

[dependencies]
ansi_term = "0.12"
bincode = "1.3"
bytes = "1"
clap = { version = "3.2", features = ["derive"] }
serde = { version = "1", features = ["derive"] }
tokio = { version = "1", features = ["rt-multi-thread", "macros", "net", "io-util", "time", "sync"] }
tracing = "0.1"
tracing-subscriber = "0.3"

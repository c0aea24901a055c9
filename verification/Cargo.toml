[package]
name = "fm_player"
version = "0.1.0"
edition = "2021"
publish = false

[dependencies]
micromap = "*"
tokio = { version = "1", features = ["rt-multi-thread", "macros", "io-util", "io-std", "net", "time", "sync"] }
serial2-tokio = "*"
crossterm = { version = "*", features = ["event-stream"] }
futures = "0.3"
clap = { version = "4", features = ["derive"] }
serde = { version = "1", features = ["derive"] }

[package]
name = "vibewig"
version = "0.1.0"
edition = "2021"
publish = false

[dependencies]
anyhow = "*"
clap = { version = "*", features = ["derive"] }
futures-util = "*"
parking_lot = "*"
tokio = { version = "*", features = ["rt-multi-thread", "macros", "net", "io-util"] }
tokio-tungstenite = "*"
tungstenite = "*"

[package]
name = "waku"
version = "0.1.0"
edition = "2021"
publish = false

[dependencies]
anyhow = "*"
chrono = "0.4"
crossbeam-channel = "0.5"
dirs = "*"
libc = "0.2"
parking_lot = "0.12"
rust-umami = "*"
serde_json = "1"
tokio = { version = "1", features = ["rt", "time"] }
unicode-segmentation = "1"
uuid = { version = "1", features = ["v4"] }

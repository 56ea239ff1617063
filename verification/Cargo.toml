[package]
name = "usque_transport"
version = "0.1.0"
edition = "2021"
publish = false

[dependencies]
bytes = "1"
http = "1"
tokio = { version = "1", features = ["net", "time", "rt", "macros", "sync"] }
tokio-util = "0.7"
thiserror = "2"

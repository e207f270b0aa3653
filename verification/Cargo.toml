[package]
name = "zebra"
version = "0.1.0"
edition = "2021"
publish = false

[dependencies]
byteorder = "1"
bytes = "1"
futures = "0.3"
tokio = { version = "1", features = ["net", "rt", "rt-multi-thread", "macros", "time", "sync", "io-util"] }
tokio-util = { version = "0.7", features = ["codec"] }

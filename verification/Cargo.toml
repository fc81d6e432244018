[package]
name = "netsync"
version = "0.1.0"
edition = "2021"
publish = false

[dependencies]
rand = "*"
tokio = { version = "*", features = ["net", "rt-multi-thread", "sync", "time", "macros", "io-util"] }

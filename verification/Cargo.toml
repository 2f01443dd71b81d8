[package]
name = "bolt_routing"
version = "0.1.0"
edition = "2021"
publish = false

[dependencies]
backon = "1"
log = "0.4"
tokio = { version = "1", features = ["io-util", "macros", "net", "rt", "sync", "time"] }

[package]
name = "rin"
version = "0.1.0"
edition = "2021"
publish = false

[dependencies]
hyper = { version = "0.14", features = ["server", "http1", "tcp"] }
log = "0.4"
tokio = { version = "1", features = ["rt-multi-thread", "signal"] }

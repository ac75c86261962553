[package]
name = "justav"
version = "0.1.0"
edition = "2021"
publish = false

[dependencies]
tracing = "0.1"

[dev-dependencies]
tracing-subscriber = "0.3"

[package]
name = "ers"
version = "0.1.0"
edition = "2021"
publish = false

[dependencies]
libc = "0.2"
objc2 = "0.6"
objc2-app-kit = "0.3"
objc2-core-foundation = "0.3"
objc2-core-graphics = "0.3"
objc2-quartz-core = "0.3"
tracing = "0.1"
tracing-subscriber = { version = "0.3", features = ["env-filter"] }

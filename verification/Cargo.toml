[package]
name = "oxcraft"
version = "0.1.0"
edition = "2021"
publish = false

[dependencies]
bytes = "=1.12.1"
uuid = { version = "=1.29.0", features = ["v3"] }
serde = { version = "=1.0.229", features = ["derive"] }
serde_json = "=1.0.154"
tracing = "0.1"
tracing-subscriber = "0.3"
nu-ansi-term = "*"
miette = "*"

[dev-dependencies]
aott = "*"

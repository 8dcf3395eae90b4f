[package]
name = "workshop_core"
version = "0.1.0"
edition = "2021"
publish = false

[dependencies]
semver = "*"
shellexpand = "*"
directories = "*"
tokio = { version = "*", features = ["process", "rt", "rt-multi-thread", "macros"] }
serde = { version = "*", features = ["derive"] }
serde_yaml = "*"
tracing = "*"

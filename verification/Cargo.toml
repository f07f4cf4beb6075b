[package]
name = "code_assistant"
version = "0.1.0"
edition = "2021"
publish = false

[dependencies]
rig-core = "=0.39.0"
safe-chains = "=0.241.2"
schemars = "=1.2.3"
serde = { version = "=1.0.229", features = ["derive"] }
serde_json = "=1.0.154"
thiserror = "=2.0.21"
tokio = { version = "=1.54.1", features = ["macros", "rt-multi-thread", "time"] }
tracing-subscriber = { version = "=0.3.23", features = ["env-filter"] }

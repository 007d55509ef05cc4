[package]
name = "pravda"
version = "0.1.0"
edition = "2021"
publish = false

[dependencies]
agent-client-protocol = "=0.11.1"
agent-client-protocol-tokio = "=0.11.1"
anyhow = "=1.0.104"
clap = { version = "=4.6.7", features = ["derive"] }
determinishtic = "=0.3.0"
schemars = { version = "=1.2.2", features = ["derive"] }
serde = { version = "=1.0.229", features = ["derive"] }
tokio = { version = "=1.53.2", features = ["macros", "rt-multi-thread", "process", "io-util"] }

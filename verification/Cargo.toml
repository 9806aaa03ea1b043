[package]
name = "data_node"
version = "0.1.0"
edition = "2021"
publish = false

[dependencies]
uuid = { version = "*", features = ["v4"] }
tokio = { version = "*", features = ["fs", "io-util", "macros", "rt-multi-thread", "sync"] }
clap = { version = "*", features = ["derive"] }
serde = { version = "*", features = ["derive"] }
toml = "*"
sysinfo = "*"
tracing = "*"
tracing-subscriber = "*"
futures = "*"
async-trait = "*"

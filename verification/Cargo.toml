[package]
name = "spinup"
version = "0.1.0"
edition = "2021"
publish = false

[dependencies]
anyhow = "*"
colored = "*"
crossterm = "*"
humantime = "*"
pnet = "*"
regex = "*"
reqwest = { version = "*", default-features = false }
serde = { version = "*", features = ["derive"] }
serde_yaml_ng = "*"
tokio = { version = "*", features = ["rt-multi-thread", "macros", "time", "net", "process", "io-util"] }

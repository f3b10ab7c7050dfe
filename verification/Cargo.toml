[package]
name = "odin"
version = "0.0.1"
edition = "2021"
publish = false

[dependencies]
anyhow = "1"
async-trait = "0.1"
chrono = { version = "=0.4.45", features = ["serde"] }
clap = { version = "4", features = ["derive", "env"] }
directories = "*"
futures-util = "0.3"
indexmap = { version = "=2.14.2", features = ["serde"] }
minijinja = { version = "=2.24.0", features = ["fuel"] }
serde = { version = "1", features = ["derive"] }
serde_json = { version = "=1.0.154", features = ["unbounded_depth"] }
serde_yaml_ng = "=0.10.0"
thiserror = "2"
tokio = { version = "1", features = ["rt-multi-thread", "macros", "process", "sync", "time", "signal", "io-util", "fs"] }
tracing = "0.1"
ureq = { version = "2", features = ["json"] }
uuid = { version = "=1.29.0", features = ["v4", "serde"] }

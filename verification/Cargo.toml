[package]
name = "nvlink_partitioning"
version = "0.1.0"
edition = "2021"
publish = false

[dependencies]
tonic = "*"
http = "*"
chrono = "*"
serde = { version = "*", features = ["derive"] }
serde_json = "*"
duration-str = "*"
tokio = { version = "*", features = ["fs", "rt", "macros", "sync"] }
async-trait = "*"
thiserror = "*"
prettytable-rs = "*"
clap = { version = "*", features = ["derive"] }
tracing = "*"

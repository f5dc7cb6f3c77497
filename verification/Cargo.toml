[package]
name = "parq"
version = "0.2.0"
edition = "2021"
publish = false

[dependencies]
serde_json = "1"
arrow = { version = "*", default-features = false }
parquet = "*"
memmap2 = "*"
clap = { version = "4", features = ["derive"] }
anyhow = "1"
thiserror = "*"
tracing = "0.1"
tracing-subscriber = { version = "0.3", features = ["env-filter"] }
crossbeam-channel = "0.5"
rayon = "1"
num_cpus = "1"

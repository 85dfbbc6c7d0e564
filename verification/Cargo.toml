[package]
name = "vllm_bench"
version = "0.1.0"
edition = "2021"
publish = false

[dependencies]
anyhow = "1"
clap = { version = "4", features = ["derive"] }
rand = "0.8"
rayon = "1"
rlimit = "0.10"
serde_json = "1"
tokio = { version = "1", features = ["rt-multi-thread"] }

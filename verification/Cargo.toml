[package]
name = "bindfetto"
version = "0.1.0"
edition = "2021"
publish = false

[dependencies]
anyhow = "1"
aya = "0.13.1"
aya-ebpf = "0.1.1"
chrono = "0.4"
libc = "0.2"
serde_json = { version = "1", features = ["raw_value"] }
tokio = { version = "1", features = ["io-util", "macros", "net", "rt-multi-thread", "sync"] }

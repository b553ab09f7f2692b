[package]
name = "selective_scan"
version = "0.1.0"
edition = "2021"
publish = false

[dependencies]
bytes = "1"
num_cpus = "1"
futures = "0.3"
opendal = "*"
tokio = { version = "1", features = ["rt-multi-thread"] }

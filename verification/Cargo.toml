[package]
name = "raft_leader"
version = "0.1.0"
edition = "2021"
publish = false

[dependencies]
tokio = { version = "1", features = ["sync", "rt", "rt-multi-thread", "macros", "time"] }
serde = { version = "1", features = ["derive"] }
async-trait = "0.1"
tracing = "0.1"

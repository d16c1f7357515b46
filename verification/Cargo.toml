[package]
name = "agentfs_fskit"
version = "0.1.0"
edition = "2021"
publish = false

[dependencies]
anyhow = "1"
dirs = "*"
tokio = { version = "1", features = ["rt-multi-thread"] }

[dev-dependencies]
libc = "0.2"

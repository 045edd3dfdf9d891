[package]
name = "pr_sentinel"
version = "0.1.0"
edition = "2021"
publish = false

[dependencies]
anyhow = "=1.0.104"
chrono = "=0.4.45"
dirs = "=7.0.0"
fractional_index = "=2.0.2"
futures = "=0.3.34"
octocrab = "=0.44.1"
serde = { version = "=1.0.229", features = ["derive"] }
serde_json = "=1.0.154"
tokio = { version = "=1.54.1", features = ["macros", "rt-multi-thread", "sync", "time"] }
uuid = { version = "=1.29.0", features = ["serde"] }

[package]
name = "v3_node"
version = "0.1.0"
edition = "2021"
publish = false

[dependencies]
alloy = { version = "2", default-features = false, features = ["std", "consensus"] }
anyhow = "1"
clap = { version = "4", features = ["derive"] }
futures = "0.3"
rusqlite = "0.41"
serde = { version = "1", features = ["derive"] }
serde_json = "1"
thiserror = "2"
tokio = { version = "1", features = ["full"] }

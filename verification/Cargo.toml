[package]
name = "gossip_chat"
version = "0.1.0"
edition = "2021"
publish = false

[dependencies]
anyhow = "1"
data-encoding = "2"
futures-lite = "2"
iroh = "*"
iroh-gossip = "*"
rand = "0.8"
serde = { version = "1", features = ["derive"] }
serde_json = "1"
tokio = { version = "1", features = ["rt-multi-thread", "macros", "sync"] }

[package]
name = "maelstrom_node"
version = "0.1.0"
edition = "2021"
publish = false

[dependencies]
serde = { version = "1", features = ["derive"] }
serde_json = "1"
bincode = "1"
tokio = { version = "1", features = ["net", "rt-multi-thread", "io-util", "macros"] }

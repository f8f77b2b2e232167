[package]
name = "minichain"
version = "0.1.0"
edition = "2021"
publish = false

[dependencies]
anyhow = "1"
bincode = "1"
blake3 = "*"
ed25519-dalek = { version = "*", features = ["rand_core"] }
getrandom = "*"
hex = "0.4"
iroh = "*"
iroh-gossip = "*"
serde = { version = "1", features = ["derive"] }
tokio = { version = "1", features = ["full"] }
tokio-stream = "*"
uuid = { version = "1", features = ["v4"] }

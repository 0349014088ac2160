[package]
name = "p2p_share"
version = "0.1.0"
edition = "2021"
publish = false

[dependencies]
blake3 = "*"
chrono = "*"
tokio = { version = "*", features = ["full"] }
clap = { version = "*", features = ["derive"] }
ipnetwork = "*"
local-ip-address = "*"

[dev-dependencies]

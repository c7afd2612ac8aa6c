[package]
name = "devnet_core"
version = "0.1.0"
edition = "2021"
publish = false

[dependencies]
rand = "0.8.5"
rand_mt = "4.2.2"
serde = { version = "1", features = ["derive"] }
serde_json = { version = "1", features = ["arbitrary_precision", "preserve_order"] }
starknet_api = "0.4.1"
starknet-core = "0.10.0"
starknet-ff = "0.3.7"

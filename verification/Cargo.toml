[package]
name = "sublinear_bft_scifest"
version = "0.1.0"
edition = "2021"
publish = false

[dependencies]
blst = "0.3"
blake3 = "1"
ed25519-dalek = "2"
rand = "0.8"
tokio = { version = "1", features = ["rt-multi-thread", "net", "io-util", "sync", "time"] }
futures = "0.3"
parking_lot = "0.12"

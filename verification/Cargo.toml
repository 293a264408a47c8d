[package]
name = "tessera_bridge"
version = "0.1.0"
edition = "2021"
publish = false

[dependencies]
serde_json = "=1.0.154"
blake3 = { version = "=1.8.7", default-features = false }
thiserror = "=2.0.21"
png = "*"

[package]
name = "node_value"
version = "0.1.0"
edition = "2021"
publish = false

[dependencies]
arrayvec = { version = "0.7", default-features = false }
blake2-rfc = { version = "0.2", default-features = false }

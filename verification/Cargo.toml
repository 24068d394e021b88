[package]
name = "evm_tracing"
version = "0.1.0"
edition = "2021"
publish = false

[dependencies]
ethereum-types = { version = "=0.14.1", features = ["codec"] }
hex = { version = "=0.4.3", features = ["serde"] }
parity-scale-codec = { version = "=3.7.5", features = ["derive"] }
serde = { version = "=1.0.229", features = ["derive"] }
sp-io = "=49.0.0"

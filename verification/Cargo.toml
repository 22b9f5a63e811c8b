[package]
name = "embassy-nats"
version = "0.1.0"
edition = "2021"
publish = false

[dependencies]
heapless = { version = "=0.9.3", features = ["serde"] }
serde = { version = "=1.0.229", default-features = false, features = ["derive"] }
serde-json-core = "=0.7.0"
embassy-net = { version = "=0.9.1", features = ["tcp", "proto-ipv4", "proto-ipv6", "medium-ethernet"] }
embassy-sync = { version = "=0.8.0", features = ["std"] }
embassy-futures = "=0.1.2"
embedded-io-async = "=0.7.0"
thiserror = { version = "=2.0.21", default-features = false }

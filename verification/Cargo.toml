[package]
name = "peer_store"
version = "0.1.0"
edition = "2021"
publish = false

[dependencies]
asynchronous-codec = "0.7"
futures = "0.3"
libp2p-core = "*"
libp2p-swarm = "*"
lru = "*"
quick-protobuf = "0.8"
quick-protobuf-codec = "*"
thiserror = "*"
tracing = "0.1"

[dev-dependencies]
libp2p-identity = { version = "*", features = ["peerid", "rand"] }

[package]
name = "bsc_node"
version = "0.1.0"
edition = "2021"
publish = false

[dependencies]
alloy-primitives = { version = "1", default-features = false, features = ["std"] }
alloy-consensus = { version = "1", default-features = false, features = ["std"] }
alloy-rlp = "0.3"
bincode = "1"
eyre = "0.6"
once_cell = "1"
parking_lot = "0.12"
revm = { version = "*", default-features = false, features = ["std"] }
schnellru = "0.2"
serde = "1"
tokio = { version = "1", features = ["macros", "rt", "sync", "time"] }
tokio-stream = "0.1"
tonic = { version = "*", default-features = false }
tracing = "0.1"

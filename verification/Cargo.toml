[package]
name = "ibc_relayer"
version = "0.1.0"
edition = "2021"
publish = false

[dependencies]
crossbeam-channel = "0.5"
ibc = "0.10"
ibc-proto = "0.14"
itertools = "0.10"
prost = "0.9"
prost-types = "0.9"
retry = { version = "1.3", default-features = false }
serde = { version = "1", features = ["derive"] }
tendermint = "0.23"
tonic = "0.6"
tracing = "0.1"

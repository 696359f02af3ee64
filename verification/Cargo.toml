[package]
name = "metering"
version = "0.1.0"
edition = "2021"
publish = false

[dependencies]
alloy-primitives = "1"
alloy-consensus = "*"
alloy-eips = "*"
op-alloy-consensus = { version = "*", features = ["serde"] }
op-alloy-flz = "*"
indexmap = "2"
parking_lot = "0.12"
tokio = { version = "1", features = ["macros", "rt-multi-thread", "sync", "time"] }
serde = { version = "1", features = ["derive"] }
serde_json = "1"
jsonrpsee = { version = "*", default-features = false, features = ["server-core", "macros"] }
rdkafka = "*"
clap = { version = "4", features = ["derive"] }
eyre = "0.6"
tracing = "0.1"
metrics = "0.24"
futures-util = "0.3"
once_cell = "1"
url = "2"

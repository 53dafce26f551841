[package]
name = "policy_gate"
version = "0.1.0"
edition = "2021"
publish = false

[dependencies]
async-watch = "*"
bytes = "1"
futures-core = "0.3"
futures-util = "0.3"
http = "1"
http-body = "1"
lru = "*"
parking_lot = "0.12"
pin-project = "1"
prost = "0.14"
rand = "0.9"
tokio = { version = "1", features = ["rt", "sync", "time"] }
tonic = { version = "0.14", default-features = false, features = ["channel", "codegen"] }
tonic-prost = "0.14"
tracing = "0.1"

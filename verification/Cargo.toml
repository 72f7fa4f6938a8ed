[package]
name = "conductor_relay"
version = "0.1.0"
edition = "2021"
publish = false

[dependencies]
base64 = "0.13"
crossbeam = "*"
jsonrpc-core = "*"
serde_json = "*"
ws = "*"

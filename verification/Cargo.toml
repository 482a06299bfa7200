[package]
name = "beefy_voter"
version = "0.1.0"
edition = "2021"
publish = false

[dependencies]
parity-scale-codec = { version = "3", default-features = false, features = ["std"] }
futures = "0.3"
log = "0.4"
parking_lot = "0.12"
serde_json = "1"

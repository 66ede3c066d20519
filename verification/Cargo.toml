[package]
name = "dynamic_cache"
version = "0.1.0"
edition = "2021"
publish = false

[dependencies]
parking_lot = "=0.12.5"

[dev-dependencies]
rand = "0.7"

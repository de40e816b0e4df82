[package]
name = "poirot"
version = "0.1.0"
edition = "2021"
publish = false

[dependencies]
parking_lot = "=0.12.5"
owning_ref = "=0.4.1"
lock_api = { version = "=0.4.14", features = ["owning_ref"] }

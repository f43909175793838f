[package]
name = "active_standby"
version = "0.1.0"
edition = "2021"
publish = false

[dependencies]
slab = "0.4"
parking_lot = "0.12"

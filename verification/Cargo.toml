[package]
name = "channel"
version = "0.1.0"
edition = "2021"

[dependencies]
crossbeam-channel = "0.5"
parking_lot_core = "0.9"

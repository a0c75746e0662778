[package]
name = "metro_ticket"
version = "0.1.0"
edition = "2021"
publish = false

[dependencies]
petgraph = { version = "0.6", features = ["serde-1"] }
bincode = "1"
console = "0.15"
dialoguer = { version = "0.11", features = ["fuzzy-select"] }

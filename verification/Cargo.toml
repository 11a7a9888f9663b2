[package]
name = "world_chain_builder"
version = "0.1.0"
edition = "2021"
publish = false

[dependencies]
alloy-primitives = "*"
clap = { version = "4", features = ["derive"] }

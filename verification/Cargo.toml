[package]
name = "solc_bytecode"
version = "0.1.0"
edition = "2021"
publish = false

[dependencies]
alloy-primitives = { version = "*", features = ["serde"] }
foundry-compilers-core = "*"
serde = { version = "*", features = ["derive"] }
serde_json = "*"

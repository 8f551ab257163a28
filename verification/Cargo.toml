[package]
name = "protocol-schema-check"
version = "0.1.0"
edition = "2021"
publish = false

[dependencies]
near-stable-hasher = "=0.37.4"
near-schema-checker-lib = { version = "=0.30.3", features = ["protocol_schema"] }
inventory = "=0.3.25"
toml = "=0.5.11"

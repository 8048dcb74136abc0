[package]
name = "jq_clone"
version = "0.1.0"
edition = "2021"
publish = false

[dependencies]
serde_json = "1"

[dev-dependencies]
winnow = "0.6"

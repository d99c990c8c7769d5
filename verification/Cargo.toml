[package]
name = "cached_tokens_merge"
version = "0.1.0"
edition = "2021"
publish = false

[dependencies]
bytes = "1"
futures = "0.3"
serde_json = "1"

[package]
name = "tag_cardinality_limit"
version = "0.1.0"
edition = "2021"
publish = false

[dependencies]
bloom = "*"
futures = "*"
toml = "*"

[package]
name = "bookmark_search"
version = "0.1.0"
edition = "2021"
publish = false

[dependencies]
anyhow = "=1.0.104"
fuzzy-matcher = "=0.3.7"
itertools = "=0.15.0"
json = "=0.12.4"
powerpack = "=0.8.0"

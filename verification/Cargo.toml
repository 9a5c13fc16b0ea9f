[package]
name = "nft_loader"
version = "0.1.0"
edition = "2021"
publish = false

[dependencies]
substreams = "*"
substreams-ethereum = "*"
substreams-database-change = "*"
prost-types = "*"

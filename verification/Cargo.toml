[package]
name = "nano"
version = "0.1.0"
edition = "2021"
publish = false

[dependencies]
itertools = "0.10"
indexmap = "1.9"
num-bigint = "0.4"
num-traits = "0.2"
pallas-primitives = "0.18"
pallas-codec = "0.18"
pallas-crypto = "0.18"
pallas-traverse = "0.18"
pallas-addresses = "0.18"
hex = "0.4"
serde = { version = "1", features = ["derive"] }
toml = "0.7"
tokio = { version = "1", features = ["time"] }
thiserror = "1"
miette = "5"
vec1 = "1"
peg = "0.8"
owo-colors = "3"
indoc = "2"
ordinal = "0.3"

[package]
name = "simple_network"
version = "0.1.0"
edition = "2021"
publish = false

[dependencies]
bytes = "1"
bytebuffer = "*"
tokio = { version = "1", features = ["full"] }
async-trait = "0.1"
anyhow = "1"
futures = "0.3"
prost = "*"
scopeguard = "1"

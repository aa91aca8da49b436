[package]
name = "xrebalance"
version = "0.1.0"
edition = "2021"
publish = false

[dependencies]
anyhow = "1"
cln-plugin = "*"
cln-rpc = "*"
futures = "0.3"
hex = "0.4"
log = "0.4"
rand = "0.8"
serde = { version = "1", features = ["derive"] }
serde_json = "1"
sha2 = "0.10"
tokio = { version = "1", features = ["full"] }

[package]
name = "ponswarp"
version = "0.1.0"
edition = "2021"
publish = false

[dependencies]
sha2 = "0.10"
hex = "0.4"
rand = "0.8"
crc32fast = "1"
serde = { version = "1", features = ["derive"] }
serde_json = "1"
bincode = "1.3"
tokio = { version = "1", features = ["full"] }
anyhow = "1"
tracing = "0.1"
quinn = "0.11"
rustls = "0.23"
rcgen = "0.13"
memmap2 = "0.9"
mdns-sd = "0.11"

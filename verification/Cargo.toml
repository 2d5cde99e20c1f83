[package]
name = "leaf"
version = "0.1.0"
edition = "2021"
publish = false

[dependencies]
trust-dns-proto = { version = "=0.23.2", default-features = false }
sha2 = "=0.10.9"
chacha20poly1305 = "=0.10.1"
base64 = "=0.22.1"
aho-corasick = "=1.1.5"
tokio = { version = "=1.54.1", features = ["sync", "io-util", "time", "rt", "macros", "net"] }
reqwest = { version = "=0.12.28", default-features = false }
serde = { version = "=1.0.229", features = ["derive"] }
serde_json = "=1.0.154"

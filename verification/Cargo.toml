[package]
name = "lotl"
version = "0.1.0"
edition = "2021"
publish = false

[dependencies]
sha2 = "=0.10.9"
hex = "=0.4.3"
hkdf = "=0.12.4"
rand = "=0.9.5"
bincode = "=1.3.3"
serde = { version = "=1.0.229", features = ["derive"] }
serde_json = "=1.0.154"
base64 = "=0.22.1"
thiserror = "=2.0.21"
rusqlite = { version = "0.37", features = ["bundled"] }
nostr = { version = "0.45", default-features = false, features = ["std"] }

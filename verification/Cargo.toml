[package]
name = "marfed_kv"
version = "0.1.0"
edition = "2021"
publish = false

[dependencies]
rand = "0.7"
rusqlite = { version = "0.24", features = ["bundled"] }
sha2 = "0.10"

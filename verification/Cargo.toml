[package]
name = "bloomsday"
version = "0.1.0"
edition = "2021"
publish = false

[dependencies]
serde = { version = "1", features = ["derive"] }
xxhash-rust = { version = "0.8", features = ["xxh64"] }

[dev-dependencies]
rand = "0.9"
serde_json = "1"

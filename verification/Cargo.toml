[package]
name = "query_plan"
version = "0.1.0"
edition = "2021"
publish = false

[dependencies]
bumpalo = "3"
bytes = "1"
futures = "0.3"
http = "1"
serde = { version = "1", features = ["derive"] }
sonic-rs = "0.5"
tracing = "0.1"
xxhash-rust = { version = "0.8", features = ["xxh3"] }

[package]
name = "orx"
version = "0.1.0"
edition = "2021"
publish = false

[dependencies]
async-trait = "0.1"
dirs = "6"
fd-lock = "4"
futures = "0.3"
libc = "0.2"
reqwest = { version = "0.12", default-features = false, features = ["json", "stream"] }
self-replace = "1"
serde = { version = "1", features = ["derive"] }
serde_json = { version = "1", features = ["float_roundtrip"] }
tokio = { version = "1", features = ["macros", "process", "rt", "time", "sync"] }
uuid = { version = "1", features = ["v4"] }

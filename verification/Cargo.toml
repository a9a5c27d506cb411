[package]
name = "seekmind"
version = "0.1.0"
edition = "2021"
publish = false

[dependencies]
chrono = "=0.4.45"
infer = "=0.22.0"
sha2 = "=0.10.9"
serde = { version = "=1.0.229", features = ["derive"] }
serde_json = "=1.0.154"
uuid = { version = "=1.29.1", features = ["v4"] }
zip = { version = "=2.6.1", default-features = false, features = ["deflate"] }
futures-util = "=0.3.34"
libc = "=0.2.191"
reqwest = { version = "0.12", default-features = false, features = ["blocking"] }
dirs = "5"

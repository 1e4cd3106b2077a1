[package]
name = "stitchd_core"
version = "0.1.0"
edition = "2021"
publish = false

[dependencies]
chrono = { version = "0.4", default-features = false, features = ["serde", "std"] }
murmur3 = "=0.5.2"
serde = { version = "=1.0.229", features = ["derive"] }
thiserror = "=1.0.69"
uuid = { version = "=1.29.0", features = ["v4", "serde"] }

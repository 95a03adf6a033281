[package]
name = "vpm_core"
version = "0.1.0"
edition = "2021"
publish = false

[dependencies]
serde_json = { version = "=1.0.151", features = ["preserve_order", "arbitrary_precision"] }
sha2 = "=0.10.9"
serde = { version = "=1.0.229", features = ["derive"] }
reqwest = { version = "=0.13.5", default-features = false }
tokio = { version = "=1.53.2", features = ["rt", "macros", "fs", "io-util"] }
futures = "=0.3.34"
async_zip = { version = "=0.0.19", features = ["tokio", "deflate"] }
clap = { version = "=4.6.7", features = ["derive"] }

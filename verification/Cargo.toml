[package]
name = "reqpipe"
version = "0.1.0"
edition = "2021"
publish = false

[dependencies]
jsonwebtoken = { version = "=11.1.0", features = ["rust_crypto"] }
chrono = "=0.4.45"
colored = "=3.1.1"
if-addrs = "=0.15.0"

[dev-dependencies]
serde_json = "=1.0.151"

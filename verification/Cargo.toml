[package]
name = "mles"
version = "2.0.0"
edition = "2021"
publish = false

[dependencies]
siphasher = "1"
lru = "0.12"
http-types = { version = "2", default-features = false }
serde = { version = "1", features = ["derive"] }
serde_json = "1"
serde_cbor = "0.11"
serde_bytes = "0.11"
tokio = { version = "1", features = ["full"] }
tokio-stream = { version = "0.1", features = ["net"] }
tokio-util = "0.7"
futures-util = { version = "0.3", features = ["sink"] }
warp = { version = "0.4", features = ["server", "websocket"] }
hyper = { version = "1", features = ["http1", "server", "client"] }
hyper-util = { version = "0.1", features = ["full"] }
http-body-util = "0.1"
bytes = "1"
log = "0.4"
simple_logger = "5"
clap = { version = "4", features = ["derive"] }
async-compression = { version = "0.4", features = ["tokio", "brotli", "zstd"] }
governor = "0.10"
rustls-acme = { version = "0.13", features = ["tokio"] }

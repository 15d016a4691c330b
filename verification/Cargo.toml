[package]
name = "libcfd"
version = "0.1.0"
edition = "2021"
publish = false

[dependencies]
anyhow = "1"
base64 = "0.22"
bytes = "1"
capnp = "0.19"
capnp-futures = "0.19"
capnp-rpc = "0.19"
futures = "0.3"
http-body = "1"
hyper = { version = "1", features = ["http2", "server"] }
hyper-util = { version = "0.1", features = ["tokio", "server", "http2"] }
quinn = "0.10"
reqwest = { version = "0.12", default-features = false, features = ["json"] }
rustls = "0.21"
serde = { version = "1", features = ["derive"] }
tokio = { version = "1", features = ["rt", "net", "sync", "time", "io-util", "macros"] }
tokio-rustls = "0.24"
uuid = { version = "1", features = ["v4"] }

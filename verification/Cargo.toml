[package]
name = "dragonfly_client"
version = "0.1.0"
edition = "2021"
publish = false

[dependencies]
sha2 = "0.10"
reqwest = { version = "0.12", default-features = false, features = ["stream", "rustls-tls"] }
rustls = { version = "0.23", default-features = false, features = ["ring", "std"] }
rustls-pki-types = "1"
tokio = { version = "1", features = ["full"] }
tokio-stream = "0.1"
tokio-util = { version = "0.7", features = ["io"] }
futures = "0.3"
tonic = "*"
prost-wkt-types = "*"
dragonfly-api = "*"
prometheus = "*"
lazy_static = "1"
warp = { version = "0.3", default-features = false }

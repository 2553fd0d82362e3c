[package]
name = "deltio"
version = "0.8.0"
edition = "2021"
publish = false

[dependencies]
anyhow = "1"
async-stream = "0.3"
async-trait = "0.1"
bytes = "=1.12.1"
futures = "0.3"
futures-util = "0.3"
google-cloud-googleapis = { version = "=0.16.1", features = ["pubsub"] }
google-cloud-pubsub = "0.30"
http-body-util = "0.1"
hyper = { version = "1", features = ["http1", "server"] }
hyper-util = { version = "0.1", features = ["tokio"] }
log = "0.4"
mimalloc = { version = "0.1", default-features = false }
parking_lot = "0.12"
prost = "0.13"
prost-types = "=0.13.5"
tokio = { version = "1", features = ["full"] }
tokio-stream = "0.1"
tokio-util = "0.7"
tonic = "0.12"

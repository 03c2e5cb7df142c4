[package]
name = "protosocket"
version = "0.1.0"
edition = "2021"
publish = false

[dependencies]
bytes = "1"
crossbeam = "0.8"
env_logger = "0.11"
futures = "0.3"
histogram = "*"
log = "0.4"
mio = { version = "1", features = ["os-poll", "net"] }
ofi-libfabric-sys = "*"
prost = "0.13"
rand = "0.9"
rmp = "0.8"
rmp-serde = "1"
serde = { version = "1", features = ["derive"] }
socket2 = { version = "0.5", features = ["all"] }
spillway = "*"
thiserror = "2"
tokio = { version = "1", features = ["full"] }
tokio-rustls = { version = "0.26", default-features = false, features = ["logging", "tls12"] }
tracing = "0.1"

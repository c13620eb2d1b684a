[package]
name = "shrimpwisp"
version = "0.1.0"
edition = "2021"
publish = false

[dependencies]
base64 = "0.22"
bcrypt = "0.17"
bytes = "1"
clap = { version = "4", features = ["derive"] }
core_affinity = "0.8"
http-body-util = "0.1"
hyper = { version = "1", features = ["server", "http1"] }
hyper-util = { version = "0.1", features = ["tokio"] }
ipnet = "2"
libc = "0.2"
serde = { version = "1", features = ["derive"] }
serde_json = "1"
sha1 = "0.10"
socket2 = { version = "0.5", features = ["all"] }
subtle = "2"
thiserror = "1"
tikv-jemallocator = "0.6"
tokio = { version = "1", features = ["full"] }
tracing = "0.1"
tracing-subscriber = { version = "0.3", features = ["env-filter", "json"] }

[package]
name = "matrix-http-rendezvous"
version = "0.1.0"
edition = "2021"
publish = false

[dependencies]
anyhow = "1"
axum = { version = "=0.6.20", features = ["headers"] }
base64ct = { version = "=1.8.3", features = ["alloc"] }
bytes = "=1.12.1"
bytesize = "=1.3.3"
clap = { version = "4", features = ["derive", "env"] }
headers = "=0.3.9"
http-body = "0.4"
humantime = "2"
hyper = { version = "0.14", features = ["server", "tcp", "http1"] }
mime = "=0.3.17"
pyo3 = { version = "=0.18.3", features = ["abi3-py37", "anyhow", "extension-module"] }
pyo3-log = "=0.9.0"
pyo3-matrix-synapse-module = "=0.1.2"
serde = { version = "1", features = ["derive"] }
sha2 = "=0.10.9"
tokio = { version = "1", features = ["macros", "rt-multi-thread", "signal", "sync", "time"] }
tower = { version = "0.4", features = ["util"] }
tower-http = { version = "0.3", features = ["cors", "limit", "set-header"] }
tracing = "0.1"
tracing-subscriber = "0.3"
ulid = "=1.2.1"

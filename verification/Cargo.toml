[package]
name = "zeek_websocket"
version = "0.1.0"
edition = "2021"
publish = false

[dependencies]
bytes = "=1.12.1"
futures-util = { version = "0.3", features = ["sink"] }
ipnetwork = "=0.21.1"
libc = "0.2"
ordered-float = "=5.1.0"
proc-macro2 = "1"
pyo3 = { version = "=0.28.3", features = ["abi3-py310", "ordered-float", "time"] }
quote = "1"
serde = "=1.0.229"
serde_json = { version = "=1.0.154", features = ["preserve_order", "float_roundtrip"] }
syn = { version = "2", features = ["full"] }
thiserror = "2"
time = { version = "=0.3.44", features = ["formatting", "parsing", "local-offset"] }
tokio = { version = "1", features = ["rt-multi-thread", "macros", "net", "sync", "io-util"] }
tokio-tungstenite = "0.28"
tungstenite = "=0.28.0"

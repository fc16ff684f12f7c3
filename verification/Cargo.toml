[package]
name = "umf_builder"
version = "0.1.0"
edition = "2021"
publish = false

[dependencies]
bytes = "1"
flate2 = "=1.1.10"
hex = "=0.4.3"
oci-client = { version = "=0.18.0", default-features = false, features = ["rustls-tls"] }
oci-spec = "=0.10.0"
reqwest = { version = "=0.12.28", default-features = false, features = ["rustls-tls", "stream"] }
serde = { version = "1", features = ["derive"] }
serde_json = "=1.0.154"
sha2 = "0.11"
tempfile = "3"
thiserror = "2"
tokio = { version = "1", features = ["fs", "io-util", "macros", "net", "process", "rt-multi-thread", "sync", "time"] }
tracing = "0.1"
tracing-subscriber = "0.3"
walkdir = "2"

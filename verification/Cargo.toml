[package]
name = "containerd-shim-cwasi"
version = "0.1.0"
edition = "2021"
publish = false

[dependencies]
anyhow = "=1.0.104"
chrono = "=0.4.45"
containerd-shim-wasm = "0.5"
hostname = "=0.3.1"
itertools = "=0.10.5"
lazy_static = "=1.5.1"
libc = "=0.2.191"
libcontainer = "0.3"
log = "=0.4.35"
nix = "0.27"
oci-spec = "=0.6.8"
rand = "=0.8.8"
rayon = "=1.12.0"
redis = "=0.23.5"
regex = "=1.10.6"
reqwest = { version = "=0.11.27", default-features = false, features = ["blocking"] }
serde = { version = "=1.0.229", features = ["derive"] }
serde_json = "=1.0.154"
tokio = { version = "=1.54.1", features = ["rt", "macros"] }
tokio-util = "=0.7.20"
uuid = { version = "=0.8.2", features = ["v4"] }
walkdir = "=2.5.0"
wasmedge-sdk = "0.13"
wasmprinter = "=0.2.80"

[package]
name = "deadrouter"
version = "0.1.0"
edition = "2021"
publish = false

[dependencies]
async-stream = "=0.3.6"
aws-lc-rs = "=1.19.0"
base16ct = { version = "=1.0.0", features = ["alloc"] }
base64ct = { version = "=1.8.3", features = ["alloc"] }
bytes = "=1.12.1"
chacha20 = { version = "=0.10.2", features = ["xchacha"] }
chacha20poly1305 = "=0.10.1"
curve25519-dalek = "=4.1.3"
dcap-qvl = "=0.7.1"
flate2 = "=1.1.10"
futures = "=0.3.34"
hex = "=0.4.3"
http-body-util = "=0.1.5"
hyper = { version = "=1.12.0", features = ["server", "http1", "http2"] }
hyper-util = { version = "=0.1.21", features = ["tokio", "server", "server-auto", "http1", "http2"] }
poly1305 = "=0.9.1"
rcgen = "=0.14.10"
regex = "=1.13.1"
reqwest = { version = "=0.12.28", default-features = false, features = ["rustls-tls-manual-roots-no-provider", "stream", "json", "http2"] }
rustls = "=0.23.46"
serde = { version = "=1.0.229", features = ["derive"] }
serde_json = "=1.0.154"
tokio = { version = "=1.54.1", features = ["full"] }
tokio-rustls = "=0.26.6"
tokio-util = { version = "=0.7.20", features = ["io"] }
tracing = "=0.1.44"
webpki-roots = "=1.0.10"
x25519-dalek = { version = "=2.0.1", features = ["static_secrets"] }
x509-parser = "=0.18.1"
zeroize = { version = "=1.9.1", features = ["derive"] }

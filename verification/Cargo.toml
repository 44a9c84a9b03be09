[package]
name = "wasmtorrent"
version = "0.1.0"
edition = "2021"
publish = false

[dependencies]
async-stream = "=0.3.6"
bincode = "=1.3.3"
bit-vec = "=0.6.3"
byteorder = "=1.5.0"
clap = { version = "=4.6.7", features = ["derive"] }
console_error_panic_hook = "=0.1.7"
console_log = "=1.1.0"
crossbeam-channel = "=0.5.17"
futures = "=0.3.34"
hex = "=0.4.3"
js-sys = "=0.3.107"
lazy_static = "=1.5.1"
log = "=0.4.35"
percent-encoding = "=2.3.2"
rand = "=0.8.8"
reqwest = { version = "=0.11.27", default-features = false }
serde = { version = "=1.0.229", features = ["derive"] }
serde_bencode = "=0.2.4"
serde_bytes = "=0.11.19"
sha1 = "=0.10.7"
tokio = { version = "=1.54.1", features = ["full"] }
tracing = "=0.1.44"
tracing-subscriber = "=0.3.23"
wasm-bindgen = "=0.2.130"
wasm-bindgen-futures = "=0.4.80"
web-sys = { version = "=0.3.107", features = ["EventTarget", "MessageEvent", "MessageEventInit", "RtcDataChannel", "RtcDataChannelType", "BinaryType", "Event"] }

[package]
name = "johnbox"
version = "0.1.0"
edition = "2021"
publish = false

[dependencies]
async-compression = { version = "=0.4.52", features = ["tokio", "brotli"] }
axum = { version = "=0.7.9", features = ["ws"] }
axum-server = { version = "=0.7.3", default-features = false, features = ["tls-rustls-no-provider"] }
csscolorparser = { version = "=0.6.2", features = ["serde"] }
dashmap = "=5.5.3"
fd-lock = "=4.0.4"
futures-util = "=0.3.34"
heapless = "=0.8.0"
nanoid = "=0.4.0"
rand = "=0.8.8"
rand_xoshiro = "=0.6.0"
regex-cursor = "=0.1.5"
reqwest = { version = "=0.12.28", default-features = false, features = ["json", "stream", "rustls-tls"] }
serde = { version = "=1.0.229", features = ["derive"] }
serde_json = "=1.0.154"
serde_urlencoded = "=0.7.1"
tiny-skia = "=0.11.4"
tokio = { version = "=1.54.1", features = ["full"] }
tokio-tungstenite = { version = "=0.21.0", features = ["rustls-tls-webpki-roots"] }
tokio-util = { version = "=0.7.20", features = ["io"] }
toml = "=0.8.23"
tower-http = { version = "=0.5.2", features = ["trace"] }
tracing = "=0.1.44"
tracing-subscriber = { version = "=0.3.23", features = ["env-filter"] }
tree-sitter = "=0.22.6"
tree-sitter-css = "=0.21.1"
tree-sitter-javascript = "=0.21.4"
uuid = { version = "=1.29.0", features = ["serde"] }

[package]
name = "rotmguard"
version = "0.1.0"
edition = "2021"
publish = false

[dependencies]
anyhow = "=1.0.104"
base64 = "=0.22.1"
blake3 = "=1.8.7"
byteorder = "=1.5.0"
chrono = "=0.4.45"
ctrlc = "=3.5.2"
file-owner = "=0.1.2"
hyper = { version = "=1.12.0", features = ["server", "http1"] }
hyper-util = { version = "=0.1.21", features = ["tokio"] }
json5 = "=0.4.1"
lru = "=0.12.5"
nix = { version = "=0.29.0", features = ["socket", "net"] }
png = "=0.17.16"
rand = "=0.8.8"
rayon = "=1.12.0"
reqwest = { version = "=0.12.28", default-features = false }
serde = { version = "=1.0.229", features = ["derive"] }
tokio = { version = "=1.54.1", features = ["full"] }
toml = "=0.8.23"
tracing = "=0.1.44"
tracing-subscriber = { version = "=0.3.23", features = ["env-filter"] }
xmltree = { version = "=0.10.3", features = ["attribute-order"] }

[package]
name = "audio8_runtime"
version = "0.1.0"
edition = "2021"
publish = false

[dependencies]
anyhow = "=1.0.104"
candle-core = { version = "=0.11.1", default-features = false }
candle-nn = { version = "=0.11.1", default-features = false }
half = "=2.7.1"
hound = "=3.5.1"
ndarray = "=0.17.2"
ort = { version = "=2.0.0-rc.13", default-features = false, features = ["std", "ndarray", "half", "load-dynamic", "cuda"] }
rand = "=0.8.8"
serde = { version = "=1.0.229", features = ["derive"] }
serde_json = "=1.0.154"
tokenizers = { version = "=0.23.2", default-features = false, features = ["fancy-regex"] }

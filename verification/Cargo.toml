[package]
name = "qlib_core"
version = "0.1.0"
edition = "2021"
publish = false

[dependencies]
arrow-arith = "=60.1.0"
arrow-array = "=60.1.0"
arrow-ipc = "=60.1.0"
arrow-schema = "=60.1.0"
bincode = "=1.3.3"
candle-core = "=0.10.2"
candle-nn = "=0.10.2"
candle-optimisers = "=0.10.2"
chrono = { version = "=0.4.45", features = ["serde"] }
csv = "=1.4.0"
indexmap = { version = "=2.14.2", features = ["serde"] }
intl = "=0.6.5"
lru = "=0.19.0"
ndarray = { version = "=0.17.2", features = ["serde"] }
num-bigint = { version = "=0.4.8", features = ["serde"] }
num-traits = "=0.2.19"
pyformat-rs = "=0.1.0"
rand = "=0.9.5"
rustpython-format = "=0.4.0"
rustpython-literal = "=0.4.0"
safetensors = "=0.7.0"
serde = { version = "=1.0.229", features = ["derive"] }
serde_json = "=1.0.154"
thiserror = "=2.0.21"
thousands = "=0.2.0"
tracing = "=0.1.44"
widestring = "=1.2.1"

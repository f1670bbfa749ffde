[package]
name = "pcs_service"
version = "0.1.0"
edition = "2021"
publish = false

[dependencies]
arrow-array = "=60.1.0"
arrow-csv = "=60.1.0"
arrow-ipc = "=60.1.0"
arrow-json = "=60.1.0"
arrow-schema = "=60.1.0"
async-trait = "0.1"
fnv = "=1.0.7"
futures = "0.3"
futures-util = "0.3"
openraft = { version = "=0.9.25", features = ["serde", "storage-v2", "generic-snapshot-data"] }
opentelemetry = { version = "=0.33.1", features = ["metrics"] }
opentelemetry_sdk = { version = "=0.33.1", features = ["metrics"] }
opentelemetry-prometheus = "=0.33.1"
parquet = { version = "=60.1.0", default-features = false, features = ["arrow", "snap"] }
postcard = { version = "=1.1.3", features = ["alloc"] }
prometheus = { version = "=0.14.0", default-features = false }
prost = "0.11"
raft = { version = "=0.7.0", default-features = false, features = ["prost-codec", "default-logger"] }
rand = "=0.10.3"
redb = "=4.4.0"
serde = { version = "1", features = ["derive"] }
serde_json = "1"
tikv-client = { version = "=0.4.0", default-features = false }
tokio = { version = "1", features = ["full"] }
tokio-util = "0.7"
tracing = "0.1"
uuid = { version = "=1.29.0", features = ["v4", "v7"] }

[dev-dependencies]
tempfile = "3"

[package]
name = "cove_core"
version = "0.1.0"
edition = "2021"
publish = false

[dependencies]
lz4_flex = "=0.11.6"
ruzstd = "=0.9.1"
sha2 = "=0.10.9"
blake3 = "=1.8.7"
simdutf8 = "=0.1.5"
arrow-array = "=60.1.0"
arrow-buffer = "=60.1.0"
arrow-schema = "=60.1.0"
arrow-data = "=60.1.0"
serde_json = "1"
bytes = "1"
parquet = { version = "60", default-features = false, features = ["arrow"] }

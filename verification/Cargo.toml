[package]
name = "luaufusion"
version = "0.1.0"
edition = "2021"
publish = false

[dependencies]
cgroups-rs = "0.5.1"
deno_core = "0.399.0"
deno_error = "0.7"
futures-util = "0.3.34"
rand = "0.9.5"
remoc = "0.18.3"
rquickjs = { version = "0.10.0", features = ["full-async"] }
serde = { version = "1.0.229", features = ["derive"] }
serde_bytes = "0.11.19"
serde_json = { version = "1.0.154", features = ["raw_value"] }
tempfile = "3.27.0"
tokio = { version = "1.54.1", features = ["full"] }
tokio-util = "0.7.20"

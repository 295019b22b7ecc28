[package]
name = "genet"
version = "0.1.0"
edition = "2021"
publish = false

[dependencies]
byteorder = "=1.5.0"
crossbeam-channel = "=0.5.17"
fnv = "=1.0.7"
num-bigint = "=0.4.8"
num-traits = "=0.2.19"
num_cpus = "=1.17.0"
serde = { version = "=1.0.229", features = ["derive"] }
serde_json = "=1.0.154"

[dev-dependencies]
combine = "=3.8.1"
combine-language = "=3.0.2"

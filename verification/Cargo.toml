[package]
name = "vecgraph"
version = "0.1.1"
edition = "2021"
publish = false

[dependencies]
serde = { version = "=1.0.229", features = ["derive"] }
serde_json = "=1.0.154"
bytemuck = "=1.25.2"
kvwrap = "=0.1.2"
async-trait = "=0.1.92"
model2vec-rs = "=0.4.0"
ndarray = "=0.17.2"
tokenizers = "=0.21.4"
ort = { version = "=2.0.0-rc.15", default-features = false, features = ["ndarray", "load-dynamic"] }

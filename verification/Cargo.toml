[package]
name = "mrf_tool"
version = "0.1.0"
edition = "2021"
publish = false

[dependencies]
serde_json = "*"
wasmparser = "*"
clap = { version = "*", features = ["derive"] }
anyhow = "*"

[dev-dependencies]
leb128 = "*"
wasm-encoder = "*"

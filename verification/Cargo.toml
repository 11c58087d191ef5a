[package]
name = "epico"
version = "0.1.0"
edition = "2021"
publish = false

[dependencies]
anyhow = "1"
bytes = "1"
clap = { version = "4", features = ["derive"] }
crossbeam-queue = "0.3"
ctrlc = "3"
libc = "0.2"
rand = "0.8"
serde = { version = "1", features = ["derive"] }
serde_json = "1"
serde_yaml = "0.9"
sysinfo = "0.30"
tempfile = "3"
wasmparser = "0.218"
wasmtime = { version = "26", default-features = false, features = ["component-model", "cranelift", "parallel-compilation", "pooling-allocator", "runtime", "std"] }
wasmtime-wasi = "26"
wasmtime-wasi-http = "26"
zmq = "0.10"

[package]
name = "avm2_jit"
version = "0.1.0"
edition = "2021"
publish = false

[dependencies]
wasm-encoder = { version = "=0.236.1", default-features = false, features = ["std"] }
wasmtime = { version = "=36.0.20", default-features = false, features = ["cranelift", "runtime", "std"] }
fnv = "=1.0.7"
tracing = "=0.1.44"
js-sys = "=0.3.107"
wasm-bindgen = "=0.2.130"

[dev-dependencies]
wasmi = "=0.40.0"

[package]
name = "machine_elves"
version = "0.1.0"
edition = "2021"
publish = false

[dependencies]
anyhow = "1"
futures = "0.3"
libp2p = { version = "0.56", features = ["gossipsub", "identify", "macros", "mdns", "noise", "ping", "quic", "tcp", "tokio", "yamux"] }
sha2 = "0.10"
tokio = { version = "1", features = ["macros", "net", "rt-multi-thread", "signal", "time"] }
wasmtime = { version = "=46.0.3", default-features = false, features = ["cranelift", "gc", "gc-drc", "gc-null", "runtime", "std", "wat"] }

[package]
name = "elle_core"
version = "0.1.0"
edition = "2021"
publish = false

[dependencies]
bincode = "1"
crossbeam-channel = "0.5"
libc = "0.2"
rustc-hash = "2"
serde = { version = "1", features = ["derive"] }
smallvec = "1"

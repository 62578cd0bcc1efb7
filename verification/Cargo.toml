[package]
name = "craftsec"
version = "0.1.0"
edition = "2021"
publish = false

[dependencies]
clap = { version = "=4.6.7", features = ["derive"] }
curve25519-dalek = "=4.1.3"
hex = "=0.4.3"
rand = "=0.8.8"
rusqlite = { version = "=0.31.0", features = ["bundled"] }
serde = { version = "=1.0.229", features = ["derive"] }
serde_json = "=1.0.154"
sha2 = "=0.10.9"
thiserror = "=2.0.21"
wasmtime = { version = "=27.0.0", default-features = false, features = ["cranelift", "runtime", "std", "wat"] }

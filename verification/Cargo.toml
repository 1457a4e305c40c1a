[package]
name = "lightweight_shred"
version = "0.1.0"
edition = "2021"
publish = false

[dependencies]
bitflags = { version = "2", features = ["serde"] }
bytes = "=1.12.1"
lazy-lru = "=0.1.4"
num_enum = "0.7"
reed-solomon-erasure = "=6.0.0"
serde = { version = "=1.0.229", features = ["derive"] }
serde_bytes = "=0.11.19"
solana-hash = "=4.7.0"
solana-pubkey = "=4.4.0"
solana-sha256-hasher = { version = "=3.1.0", features = ["sha2"] }
solana-signature = { version = "=3.6.0", features = ["verify"] }
thiserror = "=2.0.21"
wincode = { version = "=0.6.3", features = ["derive"] }

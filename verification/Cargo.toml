[package]
name = "keeper"
version = "0.1.0"
edition = "2021"
publish = false

[dependencies]
base64 = "0.22"
console_error_panic_hook = "0.1"
ctrlc = "3"
serde_json = "1"
sha2 = "0.10"
solana-commitment-config = "3"
solana-instruction = "3"
solana-keypair = "3"
solana-pubkey = "4"
solana-signer = "3"
solana-transaction = { version = "3.1", features = ["bincode"] }
thiserror = "1"
tracing = "0.1"
tracing-subscriber = { version = "0.3", features = ["env-filter", "json"] }
wasm-bindgen = "0.2"

[dev-dependencies]
borsh = "1"

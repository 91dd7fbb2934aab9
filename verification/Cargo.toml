[package]
name = "contract_identity"
version = "0.1.0"
edition = "2021"
publish = false

[dependencies]
hex = "=0.4.3"
k256 = "=0.13.4"
sha3 = "=0.10.9"
borsh = { version = "=1.8.1", features = ["derive"] }
serde = { version = "1", features = ["derive"] }
anyhow = "1"
clap = { version = "4", features = ["derive"] }
axum = "=0.8.9"
tokio = { version = "1", features = ["full"] }
tower-http = { version = "0.6", features = ["cors"] }
tracing-subscriber = { version = "0.3", features = ["env-filter"] }
hyli-contract-sdk = "=0.14.0"
hyli-client-sdk = { version = "=0.14.0", features = ["indexer", "rest"] }

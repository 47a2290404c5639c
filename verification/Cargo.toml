[package]
name = "lamport-sdk"
version = "0.1.0"
edition = "2021"
publish = false

[dependencies]
anyhow = "=1.0.104"
thiserror = "=1.0.69"
serde = { version = "=1.0.229", features = ["derive"] }
serde_json = "=1.0.154"
clap = { version = "=4.6.7", features = ["derive", "env"] }
log = "=0.4.35"
tokio = { version = "=1.54.1", features = ["time", "rt", "macros"] }
solana-sdk = "=2.3.1"
actix-web = { version = "4", default-features = false, features = ["macros"] }

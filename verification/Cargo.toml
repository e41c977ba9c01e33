[package]
name = "mynode"
version = "0.1.0"
edition = "2021"
publish = false

[dependencies]
bincode = "1.3"
ed25519-dalek = "1.0.1"
rand = "0.7"
serde = { version = "1.0", features = ["derive"] }
serde_json = "1.0"
tokio = { version = "1", features = ["full"] }
clap = "2.33"
env_logger = "0.8"
log = "0.4"
thiserror = "1.0"
itertools = "0.10"
libp2p = { version = "0.36", default-features = false, features = ["tcp-tokio", "gossipsub", "kad", "ping", "plaintext", "yamux"] }

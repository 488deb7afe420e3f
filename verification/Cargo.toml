[package]
name = "chippy"
version = "0.1.0"
edition = "2021"
publish = false

[dependencies]
anyhow = "1"
clap = { version = "4", default-features = false, features = ["derive", "std", "help", "usage", "error-context"] }
dirs = "6"
ed25519-dalek = { version = "2", features = ["pkcs8", "pem", "rand_core"] }
either = "1"
futures = "0.3"
libp2p = { version = "0.55", features = ["tokio", "tcp", "quic", "dns", "noise", "yamux", "relay", "kad", "gossipsub", "identify", "dcutr", "autonat", "ping", "macros", "ed25519", "serde"] }
quick-protobuf = "0.8"
rand = "0.8"
serde = { version = "1", features = ["derive"] }
sha2 = "0.10"
tokio = { version = "1", features = ["macros", "rt-multi-thread", "io-std", "io-util", "sync", "signal"] }
toml = "0.8"
tracing = "0.1"
tracing-subscriber = { version = "0.3", default-features = false, features = ["env-filter", "fmt", "std"] }

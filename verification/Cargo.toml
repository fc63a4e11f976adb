[package]
name = "p2p_articles"
version = "0.1.0"
edition = "2021"
publish = false

[dependencies]
clap = { version = "*", features = ["derive"] }
libp2p = { version = "*", default-features = false, features = ["tcp", "tokio", "noise", "yamux", "mdns", "floodsub", "macros", "ed25519"] }
tokio = { version = "*", features = ["full"] }
log = "*"
pretty_env_logger = "*"

[dev-dependencies]
serde_json = "*"

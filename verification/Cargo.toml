[package]
name = "ping_pong"
version = "0.1.0"
edition = "2021"
publish = false

[dependencies]
sha3 = "*"
anyhow = "*"
futures = "*"
libp2p = { version = "*", default-features = false, features = ["tokio", "tcp", "dns", "noise", "yamux", "ping", "macros", "ed25519"] }
log = "*"
simple_logger = "*"
structopt = "*"
tokio = { version = "*", features = ["full"] }
tokio-socks = "*"
torut = "*"

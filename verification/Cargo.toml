[package]
name = "nftblockd"
version = "0.1.0"
edition = "2021"
publish = false

[dependencies]
ipnetwork = "*"
serde_json = "*"
nftables = "*"
ureq = { version = "*", default-features = false }
clap = { version = "*", features = ["derive", "env"] }
dotenvy = "*"
rand = "*"
log = "*"
tracing-subscriber = { version = "*", features = ["env-filter"] }

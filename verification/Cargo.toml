[package]
name = "locutus_p2p"
version = "0.1.0"
edition = "2021"
publish = false

[dependencies]
anyhow = "1"
async-trait = "0.1"
asynchronous-codec = "0.6"
bincode = "1"
dashmap = "5"
either = "1"
futures = "0.3"
libp2p = { version = "0.42", default-features = false, features = ["identify", "ping"] }
log = "0.4"
serde = { version = "1", features = ["derive"] }
tokio = { version = "1", features = ["macros", "rt-multi-thread", "sync"] }
unsigned-varint = { version = "0.7", features = ["asynchronous_codec"] }

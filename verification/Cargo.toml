[package]
name = "sraft"
version = "0.1.0"
edition = "2021"
publish = false

[dependencies]
uuid = "0.8"
rand = "0.8"
actix = "0.10"
actix-web = "3"
tokio = { version = "1", features = ["rt-multi-thread", "macros"] }
tonic = "0.4"
prost = "0.7"
clap = { version = "3", features = ["derive"] }
tracing = "0.1"
tracing-subscriber = "0.2"
serde = { version = "1", features = ["derive"] }
bincode = "1"
kv = "0.22"
hashbrown = "0.9"
futures = "0.3"
jemallocator = "0.3"

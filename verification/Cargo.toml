[package]
name = "bee_core"
version = "0.1.0"
edition = "2021"
publish = false

[dependencies]
blake2 = "*"
hex = "*"
twox-hash = "*"
rand = "*"
serde = { version = "*", features = ["derive"] }
toml = "*"
tokio = { version = "*", features = ["rt", "rt-multi-thread", "time", "sync", "macros", "io-util", "net"] }

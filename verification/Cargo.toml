[package]
name = "block_privy"
version = "0.1.0"
edition = "2021"
publish = false

[dependencies]
rusqlite = { version = "=0.40.2", features = ["bundled", "fallible_uint"] }
serde = { version = "*", features = ["derive"] }
tokio = { version = "*", features = ["macros", "rt-multi-thread", "sync"] }
clap = { version = "*", features = ["derive"] }
async-trait = "*"
futures-util = "*"
tracing = "*"
jsonrpsee = { version = "*", features = ["server", "macros"] }

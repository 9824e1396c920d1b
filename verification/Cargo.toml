[package]
name = "solana_agg"
version = "0.1.0"
edition = "2021"
publish = false

[dependencies]
actix-web = { version = "4", default-features = false, features = ["macros"] }
log = "0.4"
rocksdb = { version = "0.22", default-features = false }
serde = { version = "1", features = ["derive"] }
serde_json = "1"
solana-program = "=1.18.26"
structopt = "0.3"
tokio = { version = "1", features = ["rt-multi-thread", "macros", "sync"] }

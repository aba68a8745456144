[package]
name = "boom_catalogs"
version = "0.1.0"
edition = "2021"
publish = false

[dependencies]
anyhow = "1"
async-channel = "2"
clap = { version = "4", features = ["derive", "env"] }
csv = "1"
fitsio = "*"
flate2 = "1"
indicatif = "*"
mongodb = "3"
serde = { version = "1", features = ["derive"] }
serde_with = "3"
tokio = { version = "1", features = ["rt-multi-thread", "macros"] }
walkdir = "2"

[dev-dependencies]
serde_json = "1"

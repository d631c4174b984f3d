[package]
name = "userdb"
version = "0.1.0"
edition = "2021"
publish = false

[dependencies]
anyhow = "=1.0.104"
clap = { version = "=4.6.7", features = ["derive"] }
rand = "=0.8.8"
tokio = { version = "=1.53.2", features = ["rt-multi-thread", "macros"] }
tokio-rusqlite = { version = "=0.8.0", features = ["bundled"] }

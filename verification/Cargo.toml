[package]
name = "pm"
version = "0.1.0"
edition = "2021"
publish = false

[dependencies]
anyhow = "=1.0.104"
chrono = "=0.4.45"
colored = "=3.1.1"
dirs = "=7.0.0"
git2 = "=0.21.0"
indicatif = "=0.18.6"
inquire = "=0.9.4"
octocrab = "=0.41.2"
tokio = { version = "=1.53.2", features = ["rt-multi-thread", "macros"] }
uuid = { version = "=1.27.0", features = ["v4"] }
walkdir = "=2.5.0"

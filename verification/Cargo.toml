[package]
name = "gold"
version = "0.1.0"
edition = "2021"
publish = false

[dependencies]
glob = "=0.3.4"
anyhow = "=1.0.104"
clap = { version = "=4.6.7", features = ["derive"] }
dotenv = "=0.15.0"
rust-s3 = { version = "=0.38.0", default-features = false, features = ["sync"] }

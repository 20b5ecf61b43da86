[package]
name = "release_sanity_checker"
version = "0.1.0"
edition = "2021"
publish = false

[dependencies]
serde_json = "*"
serde = { version = "*", features = ["derive"] }
clap = { version = "*", features = ["derive"] }
colored = "*"
env_logger = "*"
log = "*"
reqwest = { version = "*", default-features = false }
sqlx = { version = "*", default-features = false, features = ["runtime-tokio", "sqlite"] }
tokio = { version = "*", features = ["rt-multi-thread", "macros", "sync", "fs", "time"] }

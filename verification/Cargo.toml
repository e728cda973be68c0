[package]
name = "koushou"
version = "0.1.0"
edition = "2021"
publish = false

[dependencies]
kdl = "*"
sha2 = "*"
zstd = "*"
flate2 = "*"
tar = "*"
clap = { version = "*", features = ["derive"] }
tokio = { version = "*", features = ["rt-multi-thread", "macros"] }
reqwest = { version = "*", default-features = false, features = ["stream"] }
futures-util = "*"
indicatif = "*"
serde = { version = "*", features = ["derive"] }
serde_json = "*"
toml = "*"
tempfile = "*"
walkdir = "*"
thiserror = "*"

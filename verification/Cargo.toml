[package]
name = "timelapse"
version = "0.1.0"
edition = "2021"
publish = false

[dependencies]
ahash = "0.8"
anyhow = "1"
bincode = "1"
chrono = "0.4"
clap = { version = "4", features = ["derive"] }
dashmap = "5"
dirs = "5"
flate2 = "1"
memmap2 = "0.9"
nix = { version = "0.27", features = ["fs", "signal"] }
owo-colors = "4"
serde = { version = "1", features = ["derive"] }
serde_json = "1"
sha1 = "0.10"
smallvec = "1"
tokio = { version = "1", features = ["full"] }
toml = "0.8"
tracing = "0.1"
tracing-subscriber = { version = "0.3", features = ["env-filter"] }
ulid = { version = "1", features = ["serde"] }
uuid = { version = "1", features = ["v4"] }
walkdir = "2"
zstd = "0.13"

[package]
name = "voice_trunk"
version = "0.1.0"
edition = "2021"
publish = false

[dependencies]
sha2 = "*"
chrono = "*"
serde = { version = "*", features = ["derive"] }
serde_json = "*"
walkdir = "*"
dirs = "*"
log = "*"
notify = "*"
tokio = { version = "*", features = ["rt-multi-thread", "macros", "fs", "sync", "io-util", "process", "time"] }
reqwest = { version = "*", default-features = false, features = ["json"] }

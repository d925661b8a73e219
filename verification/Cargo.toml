[package]
name = "thompson"
version = "0.1.0"
edition = "2021"
publish = false

[dependencies]
rapidfuzz = "*"
base64 = "*"
image = { version = "*", default-features = false, features = ["png"] }
tokio = { version = "1", features = ["rt-multi-thread", "sync", "time", "process", "fs", "macros"] }
chrono = "*"
open = "*"
serde = { version = "1", features = ["derive"] }
serde_json = "1"
reqwest = { version = "*", default-features = false, features = ["json"] }
sysinfo = "*"
mpris = "*"

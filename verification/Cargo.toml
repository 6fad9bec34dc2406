[package]
name = "victauri"
version = "0.1.0"
edition = "2021"
publish = false

[dependencies]
serde_json = "1"
flate2 = "1"
png = "0.17"
base64 = "0.22"
serde = { version = "1", features = ["derive"] }
schemars = "1"
tokio = { version = "1", features = ["rt-multi-thread", "macros", "time", "sync"] }
reqwest = { version = "0.12", default-features = false, features = ["json"] }
anyhow = "1"
tracing = "0.1"
chrono = "0.4"
libc = "0.2"
inventory = "0.3"
x11rb = "0.13"

[package]
name = "holligerme"
version = "0.1.0"
edition = "2021"
publish = false

[dependencies]
anyhow = "1"
axum = "0.7"
bincode = "1"
chrono = "0.4"
clap = { version = "4", features = ["derive"] }
crc32fast = "1"
gray_matter = "0.2"
katex = "0.4"
markdown = "1.0.0-alpha"
maud = { version = "0.26", features = ["axum"] }
phf_codegen = "0.11"
serde = { version = "1", features = ["derive"] }
serde_json = "1"
sled = "0.34"
tokio = { version = "1", features = ["rt-multi-thread", "macros", "net"] }
tower-http = { version = "0.5", features = ["fs", "trace", "cors"] }
tracing = "0.1"
tracing-subscriber = { version = "0.3", features = ["env-filter"] }

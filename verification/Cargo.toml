[package]
name = "helix_agent"
version = "0.1.0"
edition = "2021"
publish = false

[dependencies]
unicode-width = "=0.1.12"
unicode-segmentation = "1"
ropey = { version = "1.6.1", default-features = false, features = ["simd"] }
imara-diff = "0.2"
nucleo = "0.5"
content_inspector = "0.2.4"
serde = { version = "1", features = ["derive"] }
serde_json = "1"
anyhow = "1"
thiserror = "2"
log = "0.4"
arc-swap = "1"
tokio = { version = "1", features = ["rt", "rt-multi-thread", "process", "time", "sync", "macros"] }
futures-util = { version = "0.3", default-features = false, features = ["std"] }
reqwest = { version = "0.12", default-features = false, features = ["json", "stream"] }
gix = { version = "*", default-features = false, features = ["attributes", "status", "sha1"] }

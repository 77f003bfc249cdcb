[package]
name = "antigravity_tools"
version = "0.1.0"
edition = "2021"
publish = false

[dependencies]
android_logger = "0.14"
anyhow = "1"
base64 = "0.22"
chrono = "0.4"
dashmap = "6"
dirs = "5"
hickory-resolver = "0.24"
hyper = { version = "0.14", features = ["client", "http1", "runtime", "stream"] }
libc = "0.2"
log = "0.4"
machine-uid = "0.5"
once_cell = "1"
reqwest = { version = "0.12", default-features = false, features = ["json"] }
rusqlite = { version = "0.31", features = ["bundled"] }
serde = { version = "1", features = ["derive"] }
serde_json = "1"
thiserror = "1"
tokio = { version = "1", features = ["net", "io-util", "rt-multi-thread", "sync", "macros", "time"] }
tower = "0.4"
tracing = "0.1"
uuid = { version = "1", features = ["v4"] }

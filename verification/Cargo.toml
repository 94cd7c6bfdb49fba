[package]
name = "rss-core"
version = "0.1.0"
edition = "2021"
publish = false

[dependencies]
atom_syndication = "*"
bytes = "*"
chrono = { version = "*", features = ["serde"] }
dirs = "*"
futures-util = "*"
reqwest = { version = "*", default-features = false, features = ["rustls-tls", "stream"] }
rss = "*"
serde = { version = "*", features = ["derive"] }
serde_json = "*"
thiserror = "*"
tokio = { version = "*", features = ["rt-multi-thread", "macros", "sync", "time", "fs", "signal"] }
tracing = "*"
tracing-subscriber = { version = "*", features = ["env-filter"] }
url = "*"

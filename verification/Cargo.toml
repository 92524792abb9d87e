[package]
name = "clarion"
version = "0.1.0"
edition = "2021"
publish = false

[dependencies]
serde_json = "=1.0.154"
nix = { version = "=0.29.0", features = ["resource"] }
serde = { version = "=1.0.229", features = ["derive"] }
clap = { version = "=4.6.7", features = ["derive"] }
rusqlite = { version = "=0.40.2", features = ["bundled"] }
deadpool-sqlite = "=0.14.0"
tokio = { version = "=1.54.1", features = ["rt-multi-thread", "macros", "sync"] }
tracing = "=0.1.44"
tracing-subscriber = { version = "=0.3.23", features = ["env-filter", "fmt"] }
uuid = { version = "=1.29.0", features = ["v4"] }
thiserror = "=2.0.21"
anyhow = "=1.0.104"
toml = "0.8"

[dev-dependencies]
tempfile = "=3.27.0"

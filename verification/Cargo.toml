[package]
name = "codrop"
version = "0.1.0"
edition = "2021"
publish = false

[dependencies]
anyhow = "=1.0.104"
blake3 = { version = "=1.8.7", features = ["pure"] }
fastcdc = "=3.2.1"
file-id = "=0.2.2"
filetime = "=0.2.23"
ignore = "=0.4.34"
iroh = { version = "=1.4.1", default-features = false, features = ["tls-ring"] }
libc = "=0.2.191"
notify = { version = "=7.0.0", default-features = false }
notify-debouncer-full = "=0.4.0"
rusqlite = { version = "=0.41.1", features = ["bundled"] }
rustls = { version = "=0.23.46", default-features = false, features = ["ring", "std"] }
serde = { version = "=1.0.229", features = ["derive"] }
serde_json = "=1.0.154"
tokio = { version = "=1.54.1", features = ["rt-multi-thread", "macros", "sync", "time", "signal"] }

[package]
name = "leviathan"
version = "0.1.0"
edition = "2021"
publish = false

[dependencies]
anyhow = "=1.0.104"
async-trait = "=0.1.92"
bincode = "=1.3.3"
chrono = { version = "=0.4.45", features = ["serde"] }
clap = { version = "=4.6.7", features = ["derive"] }
http-body-util = "=0.1.5"
hyper = { version = "=1.12.0", features = ["server", "http1"] }
hyper-util = { version = "=0.1.21", features = ["tokio"] }
libc = "=0.2.191"
memmap2 = "=0.9.12"
nix = { version = "=0.29.0", features = ["fs", "mount", "sched"] }
prometheus-client = "=0.22.3"
prost = "=0.13.5"
rand = "=0.8.8"
rcgen = "=0.13.2"
rustls = { version = "=0.23.46", default-features = false, features = ["ring", "std", "tls12"] }
serde = { version = "=1.0.229", features = ["derive"] }
serde_json = "=1.0.154"
thiserror = "=1.0.69"
tokio = { version = "=1.54.1", features = ["full"] }
tonic = "=0.12.3"
tracing = "=0.1.44"
tracing-subscriber = { version = "=0.3.23", features = ["env-filter"] }

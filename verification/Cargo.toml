[package]
name = "rerrb"
version = "0.1.0"
edition = "2021"
publish = false

[dependencies]
anyhow = "1"
aya-ebpf = "0.1"
aya-obj = "0.2"
clap = { version = "4", features = ["derive"] }
libc = "0.2"
serde = { version = "1", features = ["derive"] }
serde_yaml = "0.9"
tokio = { version = "1", features = ["full"] }
tracing = "0.1"
tracing-subscriber = { version = "0.3", features = ["env-filter"] }
tun-rs = { version = "2", features = ["async"] }

[dev-dependencies]
object = { version = "0.36", default-features = false, features = ["read_core"] }

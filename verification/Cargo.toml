[package]
name = "ghaf-device-manager"
version = "0.1.0"
edition = "2021"
publish = false

[dependencies]
anyhow = "1"
async-trait = "0.1"
clap = { version = "4", features = ["derive"] }
futures-util = { version = "0.3", features = ["sink"] }
libc = "0.2"
nix = { version = "*", features = ["fs", "ioctl", "user"] }
regex = "1"
serde = { version = "1", features = ["derive"] }
serde_json = "1"
tokio = { version = "1", features = ["full"] }
tokio-util = { version = "0.7", features = ["codec"] }
tokio-vsock = "*"
tracing = "0.1"
tracing-subscriber = { version = "0.3", features = ["env-filter"] }
udev = "*"

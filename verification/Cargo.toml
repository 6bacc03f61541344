[package]
name = "atspicli"
version = "0.1.0"
edition = "2021"
publish = false

[dependencies]
regex = "=1.13.1"
atspi = "=0.30.0"
zbus = "=5.19.0"
tokio = { version = "=1.54.1", features = ["rt-multi-thread", "macros", "time"] }
clap = { version = "=4.6.7", features = ["derive"] }
serde = { version = "=1.0.229", features = ["derive"] }
anyhow = "=1.0.104"
tracing = "=0.1.44"
tracing-subscriber = { version = "=0.3.23", features = ["env-filter"] }
thiserror = "=1.0.69"

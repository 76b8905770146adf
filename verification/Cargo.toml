[package]
name = "lum"
version = "0.1.0"
edition = "2021"
publish = false

[dependencies]
dirs = "*"
fern = { version = "*", features = ["colored"] }
humantime = "*"
log = "*"
serde = { version = "*", features = ["derive"] }
serde-env = "*"
serde_json = "*"
thiserror = "*"
tokio = { version = "*", features = ["macros", "rt-multi-thread", "signal", "sync", "time"] }

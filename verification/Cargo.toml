[package]
name = "bwfs"
version = "0.1.0"
edition = "2021"
publish = false

[dependencies]
anyhow = "1"
clap = { version = "4", features = ["derive"] }
configparser = "3"
env_logger = "0.11"
fuser = { version = "0.15", default-features = false }
image = { version = "0.25", default-features = false, features = ["png"] }
libc = "0.2"
log = "0.4"
serde = { version = "1", features = ["derive"] }
serde_json = "1"
tokio = { version = "1", features = ["net", "io-util", "rt-multi-thread", "macros"] }

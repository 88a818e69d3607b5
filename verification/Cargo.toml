[package]
name = "clipture"
version = "0.1.0"
edition = "2021"
publish = false

[dependencies]
url = "=2.5.8"
serde = { version = "=1.0.229", features = ["derive"] }
serde_json = "=1.0.151"
tokio = { version = "=1.53.2", features = ["rt-multi-thread", "sync", "time", "macros"] }
reqwest = { version = "=0.13.5", default-features = false, features = ["json"] }
open = "=5.4.4"
keyring = "=4.2.0"
whoami = "=2.1.3"

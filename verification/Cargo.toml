[package]
name = "gacha_url"
version = "0.1.0"
edition = "2021"
publish = false

[dependencies]
url = "=2.5.8"
serde_json = "=1.0.154"
minreq = { version = "=2.14.1", features = ["https"] }
winsafe = { version = "=0.0.29", features = ["advapi", "gui", "shell"] }

[dev-dependencies]
regex-lite = "=0.1.9"

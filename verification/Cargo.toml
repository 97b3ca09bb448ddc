[package]
name = "relentless"
version = "0.1.0"
edition = "2021"
publish = false

[dependencies]
hdrhistogram = { version = "7", default-features = false }
regex = "1"
serde_json = "1"
json-patch = "*"
http = "1"
serde = { version = "1", features = ["derive"] }
serde_yaml = "0.9"
toml = "0.8"
clap = { version = "4", features = ["derive"] }
tokio = { version = "1", features = ["macros", "rt-multi-thread"] }
tower = { version = "0.5", features = ["timeout", "util"] }
reqwest = { version = "0.12", default-features = false }
bytes = "1"
http-body = "1"
http-body-util = "0.1"
futures = "0.3"
mime = "0.3"
thiserror = "1"

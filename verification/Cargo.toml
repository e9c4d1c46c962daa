[package]
name = "ergo_tasks"
version = "0.1.0"
edition = "2021"
publish = false

[dependencies]
petgraph = "0.6"
bit-set = "0.5"
handlebars = "4"
serde = { version = "1", features = ["derive"] }
serde_json = "1"
cron = "0.12"
chrono = "0.4"
jsonschema = { version = "0.17", default-features = false }
url = "2"
reqwest = { version = "0.11", default-features = false, features = ["json"] }
tokio = { version = "1", features = ["process", "rt-multi-thread", "macros", "time"] }
uuid = { version = "1", features = ["v4", "serde"] }
anyhow = "1"
thiserror = "1"
smallvec = "1"
fxhash = "0.2"
itertools = "0.10"
base64 = "0.21"

[package]
name = "yoroolbot"
version = "0.1.0"
edition = "2021"
publish = false

[dependencies]
async-trait = "=0.1.92"
serde = "=1.0.229"
serde_yaml = "=0.9.34"
takecell = "=0.1.1"
teloxide = { version = "=0.17.0", default-features = false }
tokio = { version = "=1.53.2", default-features = false, features = ["sync", "fs", "rt"] }

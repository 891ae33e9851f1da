[package]
name = "chatboto"
version = "0.1.0"
edition = "2021"
publish = false

[dependencies]
anyhow = "=1.0.104"
iced = { version = "=0.13.1", default-features = false, features = ["tokio"] }
pulldown-cmark = { version = "=0.12.2", default-features = false }
reqwest = { version = "=0.12.28", default-features = false, features = ["blocking", "json"] }
rusql-alchemy = { version = "=0.6.0", default-features = false }
serde = { version = "=1.0.229", features = ["derive"] }
serde_json = "=1.0.154"
tokio = { version = "=1.54.1", features = ["rt-multi-thread"] }

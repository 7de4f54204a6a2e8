[package]
name = "data-studio-agent"
version = "0.1.0"
edition = "2021"
publish = false

[dependencies]
serde = { version = "=1.0.229", features = ["derive"] }
serde_json = "=1.0.154"
uuid = { version = "=1.29.0", features = ["v4"] }
rusqlite = { version = "=0.41.1", features = ["bundled"] }
async-trait = "=0.1.92"
tokio = { version = "=1.54.1", features = ["sync", "time", "rt", "macros"] }
rand = "=0.8.8"
reqwest = { version = "=0.12.28", default-features = false, features = ["json", "stream"] }
futures = "=0.3.34"
async-openai = { version = "=0.43.0", features = ["chat-completion"] }

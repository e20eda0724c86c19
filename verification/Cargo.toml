[package]
name = "consult_queue"
version = "0.1.0"
edition = "2021"
publish = false

[dependencies]
rusqlite = { version = "*", features = ["bundled"] }
serde = { version = "*", features = ["derive"] }
serde_json = "*"
serenity = "0.11"
tokio = { version = "*", features = ["macros", "rt-multi-thread", "sync"] }

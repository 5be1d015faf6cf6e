[package]
name = "durable_workflow"
version = "0.1.0"
edition = "2021"
publish = false

[dependencies]
anyhow = "=1.0.104"
async-trait = "=0.1.92"
futures = "=0.3.34"
rusqlite = { version = "=0.31.0", features = ["bundled"] }
serde = { version = "=1.0.229", features = ["derive"] }
serde_json = { version = "=1.0.154", features = ["unbounded_depth"] }
tauri = { version = "=2.12.5", default-features = false }
thiserror = "=1.0.69"
tokio = { version = "=1.54.1", features = ["rt-multi-thread", "time", "macros"] }
uuid = { version = "=1.29.0", features = ["v4"] }

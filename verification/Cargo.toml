[package]
name = "llm_pipeline"
version = "0.1.0"
edition = "2021"
publish = false

[dependencies]
serde_json = "1"
fastrand = "2"
serde = { version = "1", features = ["derive"] }
serde_yaml = "0.9"
thiserror = "1"
anyhow = "1"
async-trait = "0.1"
futures = "0.3"
reqwest = { version = "0.12", default-features = false, features = ["json", "stream"] }
tokio = { version = "1", features = ["time", "rt", "macros"] }

[package]
name = "embed_index"
version = "0.1.0"
edition = "2021"
publish = false

[dependencies]
anyhow = "*"
dotenv = "*"
fastembed = "*"
qdrant-client = "*"
serde = { version = "*", features = ["derive"] }
serde_json = "*"
tokio = { version = "*", features = ["macros", "rt-multi-thread"] }
uuid = { version = "*", features = ["v4"] }

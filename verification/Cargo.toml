[package]
name = "blogstore"
version = "0.1.0"
edition = "2021"
publish = false

[dependencies]
chrono = "0.4"
anyhow = "1"
dotenv = "0.15"
once_cell = "1"
serde = { version = "1", features = ["derive"] }
serde_json = "1"
tokio = { version = "1", features = ["macros", "rt-multi-thread", "sync"] }
axum = "0.6"
reqwest = { version = "0.11", default-features = false }
sqlx = { version = "0.7", default-features = false, features = ["runtime-tokio", "sqlite"] }

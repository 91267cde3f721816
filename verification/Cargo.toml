[package]
name = "odds_pipeline"
version = "0.1.0"
edition = "2021"
publish = false

[dependencies]
chrono = "*"
regex = "*"
serde = { version = "*", features = ["derive"] }
serde_json = "*"
tokio = { version = "*", features = ["full"] }
axum = { version = "*", features = ["ws"] }
futures = "*"
sqlx = { version = "*", default-features = false, features = ["runtime-tokio", "postgres", "chrono", "json"] }
reqwest = { version = "*", default-features = false, features = ["json"] }
tokio-tungstenite = "*"
tower-http = { version = "*", features = ["cors", "fs"] }
tracing = "*"
tracing-subscriber = "*"
url = "*"
dotenvy = "*"
dashmap = "*"

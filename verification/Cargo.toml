[package]
name = "deckmaster"
version = "0.1.0"
edition = "2021"
publish = false

[dependencies]
uuid = "=1.27.0"
anyhow = "*"
axum = "*"
bytes = "*"
chrono = "*"
reqwest = { version = "*", default-features = false }
serde = { version = "*", features = ["derive"] }
sqlx = { version = "=0.9.0", default-features = false, features = ["sqlite", "runtime-tokio", "chrono"] }
tokio = { version = "*", features = ["rt-multi-thread", "net", "macros"] }
tower-http = { version = "*", features = ["cors"] }
tracing = "*"
tracing-subscriber = { version = "*", features = ["env-filter", "fmt"] }

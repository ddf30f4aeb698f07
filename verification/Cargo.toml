[package]
name = "aubapr"
version = "0.1.0"
edition = "2021"
publish = false

[dependencies]
axum = "*"
candle-core = "*"
candle-nn = "*"
reqwest = { version = "*", default-features = false, features = ["json"] }
serde = { version = "*", features = ["derive"] }
serde_json = "*"
tokio = { version = "*", features = ["full"] }
tracing = "*"
tracing-subscriber = { version = "*", features = ["env-filter"] }

[dev-dependencies]
uuid = { version = "*", features = ["v4"] }

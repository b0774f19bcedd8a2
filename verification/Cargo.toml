[package]
name = "tcp_router"
version = "0.1.0"
edition = "2021"
publish = false

[dependencies]
lru = "*"
lz4_flex = "*"
regex = "*"
serde = { version = "*", features = ["derive"] }
serde_json = "*"
toml = "*"
tokio = { version = "*", features = ["rt-multi-thread"] }
tokio-postgres = "*"
deadpool-postgres = "*"
tracing = "*"
tracing-subscriber = { version = "*", features = ["env-filter", "fmt"] }

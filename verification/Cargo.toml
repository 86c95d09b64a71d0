[package]
name = "stock_exchange_rust"
version = "0.1.0"
edition = "2021"
publish = false

[dependencies]
rand = "*"
rand_distr = "*"
serde = { version = "*", features = ["derive"] }
serde_json = "*"
anyhow = "*"
chrono = "*"
uuid = { version = "*", features = ["v4"] }
tokio = { version = "*", features = ["full"] }
axum = { version = "*", features = ["ws"] }
tower-http = { version = "*", features = ["cors", "set-header"] }
sqlx = { version = "*", default-features = false, features = ["sqlite", "runtime-tokio"] }
redis = { version = "*", features = ["tokio-comp", "connection-manager"] }
ratatui = "*"
crossterm = "*"

[package]
name = "ormos"
version = "0.1.0"
edition = "2021"
publish = false

[dependencies]
chrono = { version = "=0.4.45", features = ["serde"] }
itertools = "=0.13.0"
serde_json = "=1.0.151"
serde = { version = "1", features = ["derive"] }
clap = { version = "4", features = ["derive"] }
tokio = { version = "1", features = ["rt-multi-thread", "macros", "net", "time"] }
axum = "=0.7.9"
reqwest = { version = "0.12", default-features = false, features = ["blocking", "json"] }
sqlx = { version = "=0.8.6", default-features = false, features = ["runtime-tokio", "postgres", "chrono"] }
tower = "0.4"
tower-http = { version = "=0.5.2", features = ["cors", "fs"] }
headers = "0.4"

[package]
name = "miniblog"
version = "0.1.0"
edition = "2021"
publish = false

[dependencies]
pulldown-cmark = "*"
chrono = "*"
serde = { version = "1", features = ["derive"] }
serde_json = "1"
serde_yaml = "*"
axum = "0.8"
askama = "*"
tokio = { version = "1", features = ["full"] }
tower-http = { version = "*", features = ["fs"] }
sqlx = { version = "*", default-features = false, features = ["sqlite", "runtime-tokio", "macros", "migrate"] }
notify = "*"
dotenvy = "*"
anyhow = "1"
async-trait = "*"
thiserror = "*"
